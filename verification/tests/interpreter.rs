use effy::ast::{BinaryOperator, Expression, LiteralExpression, Statement};
use effy::environment::{Environment, Scopes};
use effy::parser::parse_script;
use effy::interpreter::Interpreter;
use effy::message::{unansi, EffyError};
use effy::runtime::{InterpreterValue, NativeFunctionContext, NativeFunctionTrait, ValueKind};
use effy::source::SourceFile;
use effy::test_event::{TestEvent, TestEventLog, TestEventSink};
use effy::value::Value;
use std::sync::{Arc, Mutex};

#[derive(Clone)]
struct Buffer(Arc<Mutex<String>>);

impl Buffer {
    fn new() -> Self {
        Buffer(Arc::new(Mutex::new(String::new())))
    }

    fn push(&self, text: &str) {
        self.0.lock().unwrap().push_str(text);
    }

    fn contents(&self) -> String {
        self.0.lock().unwrap().clone()
    }
}

struct Println(Buffer);

impl NativeFunctionTrait for Println {
    fn invoke(&self, context: &mut NativeFunctionContext) -> Result<InterpreterValue, EffyError> {
        self.0
            .push(&format!("PRINTLN {}\n", context.arguments()[0].to_display_string()));
        Ok(InterpreterValue::unit())
    }
}

struct Assert(Buffer);

impl NativeFunctionTrait for Assert {
    fn invoke(&self, context: &mut NativeFunctionContext) -> Result<InterpreterValue, EffyError> {
        let first_argument = &context.arguments()[0];
        self.0
            .push(&format!("ASSERT {}\n", first_argument.to_display_string()));
        if let ValueKind::PrimitiveValue(Value::Boolean(value)) = first_argument.value_kind() {
            if !value {
                return Err(EffyError::message("assertion failed"));
            }
            Ok(InterpreterValue::unit())
        } else {
            Err(EffyError::message(&format!(
                "argument to assert() call must evaluate boolean, but instead found: '{}'",
                first_argument.to_display_string()
            )))
        }
    }
}

struct Reporter(Buffer);

impl TestEventSink for Reporter {
    fn on_event(&mut self, event: TestEvent) {
        match event {
            TestEvent::TestStarted { test_name } => {
                self.0.push(&format!("TEST STARTED: {}\n", test_name));
            }
            TestEvent::TestSuccess { test_name } => {
                self.0.push(&format!("TEST SUCCESS: {}\n", test_name));
            }
            TestEvent::TestFailed { test_name, error } => {
                self.0.push(&format!(
                    "TEST FAILED: {}\nERROR: {}\n",
                    test_name,
                    error.to_display_string()
                ));
            }
        }
    }
}

fn test_eval(source: &str, expected: &str) {
    let source_file = SourceFile::new("script.effy", source);
    let mut interpreter = Interpreter::new();
    let buffer = Buffer::new();
    interpreter.add_native_function("println", Println(buffer.clone()));
    let result = match interpreter.run_script(source_file) {
        Ok(result) => result,
        Err(error) => panic!("unexpected error: {}", error.to_display_string()),
    };
    let mut result_string = buffer.contents();
    result_string.push_str("RESULT: ");
    result_string.push_str(&result.to_display_string());
    assert_eq!(result_string, expected);
}

fn run_test(source: &str, expected: &str) {
    let source_file = SourceFile::new("script.effy", source);
    let mut interpreter = Interpreter::new();
    let buffer = Buffer::new();
    interpreter.add_native_function("println", Println(buffer.clone()));
    interpreter.add_native_function("assert", Assert(buffer.clone()));
    let mut reporter = Reporter(buffer.clone());
    assert!(interpreter.run_tests(source_file, &mut reporter).is_ok());
    assert_eq!(unansi(&buffer.contents()), expected);
}

#[test]
fn eval_empty() {
    test_eval("", "RESULT: unit");
}

#[test]
fn integer() {
    test_eval("42;", "RESULT: 42i64");
}

#[test]
fn eval_string_empty() {
    test_eval("\"\";", "RESULT: \"\"");
}

#[test]
fn string_simple() {
    test_eval("\"foo\";", "RESULT: \"foo\"");
}

#[test]
fn var_use_println() {
    test_eval("println;", "RESULT: <native function 'println'>");
}

#[test]
fn call_println() {
    test_eval(
        "println(\"hello world\");",
        "PRINTLN \"hello world\"\nRESULT: unit",
    );
}

#[test]
fn add() {
    test_eval("println(1+2);", "PRINTLN 3i64\nRESULT: unit");
}

#[test]
fn mul() {
    test_eval("println(2*3);", "PRINTLN 6i64\nRESULT: unit");
}

#[test]
fn eval_equals() {
    test_eval(
        "println(1==2);println(2==2);",
        "PRINTLN #false\nPRINTLN #true\nRESULT: unit",
    );
}

#[test]
fn fun_call() {
    test_eval(
        "fun foo() {println(1);} println(0);foo();println(2);",
        "PRINTLN 0i64\nPRINTLN 1i64\nPRINTLN 2i64\nRESULT: unit",
    );
}

#[test]
fn test_nothing() {
    run_test("", "");
}

#[test]
fn test_empty_fun_unannotated() {
    run_test("fun foo() {}", "");
}

#[test]
fn test_empty_test() {
    run_test(
        "@Test fun foo() {}",
        "TEST STARTED: foo\nTEST SUCCESS: foo\n",
    );
}

#[test]
fn test_fail() {
    run_test(
        "@Test fun foo() {bar;}",
        "TEST STARTED: foo\nTEST FAILED: foo\nERROR: error: Could not resolve binding 'bar'\n  ╭▸ script.effy:1:18\n  │\n1 │ @Test fun foo() {bar;}\n  ╰╴                 ━━━ name could not be found\n",
    );
}

#[test]
fn test_assert_true() {
    run_test(
        "@Test fun foo() {assert(true);}",
        "TEST STARTED: foo\nASSERT #true\nTEST SUCCESS: foo\n",
    );
}

#[test]
fn test_assert_false() {
    run_test(
        "@Test fun foo() {assert(false);}",
        "TEST STARTED: foo\nASSERT #false\nTEST FAILED: foo\nERROR: assertion failed\n",
    );
}

#[test]
fn test_assert_string() {
    run_test(
        "@Test fun foo() {assert(\"bar\");}",
        "TEST STARTED: foo\nASSERT \"bar\"\nTEST FAILED: foo\nERROR: argument to assert() call must evaluate boolean, but instead found: '\"bar\"'\n",
    );
}

fn eval_error(source: &str) -> String {
    let source_file = SourceFile::new("script.effy", source);
    let mut interpreter = Interpreter::new();
    let buffer = Buffer::new();
    interpreter.add_native_function("println", Println(buffer.clone()));
    match interpreter.run_script(source_file) {
        Ok(value) => panic!("expected an error, got {}", value.to_display_string()),
        Err(error) => unansi(&error.to_display_string()),
    }
}

#[test]
fn unresolved_binding_points_at_name() {
    assert_eq!(
        eval_error("foo;"),
        "error: Could not resolve binding 'foo'\n  ╭▸ script.effy:1:1\n  │\n1 │ foo;\n  ╰╴━━━ name could not be found"
    );
}

#[test]
fn unsupported_operator_for_ints() {
    assert_eq!(eval_error("1-2;"), "Unsupported binary expression for ints: '-'");
    assert_eq!(eval_error("1<2;"), "Unsupported binary expression for ints: '<'");
}

#[test]
fn binary_on_non_integers() {
    assert_eq!(eval_error("\"a\"+1;"), "Could not eval binary expression");
    assert_eq!(eval_error("true==true;"), "Could not eval binary expression");
}

#[test]
fn calling_a_primitive() {
    assert_eq!(eval_error("1();"), "Expression value is not callable: 1i64");
    assert_eq!(eval_error("\"x\"(2);"), "Expression value is not callable: \"x\"");
}

#[test]
fn integer_overflow_is_an_error() {
    assert_eq!(
        eval_error("9223372036854775807+1;"),
        "Integer overflow in binary expression"
    );
    assert_eq!(
        eval_error("4294967296*4294967296;"),
        "Integer overflow in binary expression"
    );
}

#[test]
fn deeply_nested_calls_run() {
    let mut source = String::from("fun f0() {7;}");
    for i in 1..=250 {
        source.push_str(&format!(" fun f{}() {{f{}();}}", i, i - 1));
    }
    source.push_str(" f250();");
    test_eval(&source, "RESULT: 7i64");
}

#[test]
fn integer_literal_too_large() {
    let source_file = SourceFile::new("script.effy", "9223372036854775808;");
    let mut interpreter = Interpreter::new();
    match interpreter.run_script(source_file) {
        Ok(_) => panic!("expected an error"),
        Err(error) => assert_eq!(error.to_display_string(), "number too large to fit in target type"),
    }
}

#[test]
fn script_value_is_last_statement() {
    test_eval("1;2;3;", "RESULT: 3i64");
    test_eval("1==1;", "RESULT: #true");
}

#[test]
fn function_definition_value() {
    test_eval("fun foo() {}", "RESULT: <coded function 'foo'>");
    test_eval("fun foo() {} foo;", "RESULT: <coded function 'foo'>");
}

#[test]
fn call_returns_last_statement_value() {
    test_eval("fun five() {5;} five();", "RESULT: 5i64");
    test_eval("fun nothing() {} nothing();", "RESULT: unit");
}

#[test]
fn functions_see_later_bindings() {
    test_eval(
        "fun a() {b();} fun b() {println(7);} a();",
        "PRINTLN 7i64\nRESULT: unit",
    );
}

#[test]
fn nested_function_sees_enclosing_scope() {
    test_eval(
        "fun outer() { fun inner() {println(1);} inner(); } outer();",
        "PRINTLN 1i64\nRESULT: unit",
    );
}

#[test]
fn inner_definitions_stay_inside() {
    assert_eq!(
        eval_error("fun outer() { fun inner() {} } outer(); inner;"),
        "error: Could not resolve binding 'inner'\n  ╭▸ script.effy:1:41\n  │\n1 │ fun outer() { fun inner() {} } outer(); inner;\n  ╰╴                                        ━━━━━ name could not be found"
    );
}

#[test]
fn arguments_are_evaluated_before_the_callee() {
    assert_eq!(eval_error("undefined(missing);"), "error: Could not resolve binding 'missing'\n  ╭▸ script.effy:1:11\n  │\n1 │ undefined(missing);\n  ╰╴          ━━━━━━━ name could not be found");
}

#[test]
fn tests_skip_other_statements() {
    run_test(
        "println(1); fun helper() {} @Test fun uses_helper() {helper();}",
        "TEST STARTED: uses_helper\nTEST FAILED: uses_helper\nERROR: error: Could not resolve binding 'helper'\n  ╭▸ script.effy:1:54\n  │\n1 │ println(1); fun helper() {} @Test fun uses_helper() {helper();}\n  ╰╴                                                     ━━━━━━ name could not be found\n",
    );
}

#[test]
fn tests_run_in_order() {
    run_test(
        "@Test fun first() {println(1);} @Other fun skipped() {} @Test fun second() {assert(1==2);}",
        "TEST STARTED: first\nPRINTLN 1i64\nTEST SUCCESS: first\nTEST STARTED: second\nASSERT #false\nTEST FAILED: second\nERROR: assertion failed\n",
    );
}

#[test]
fn run_tests_reports_parse_errors() {
    let source_file = SourceFile::new("script.effy", "@Test fun (");
    let mut interpreter = Interpreter::new();
    let buffer = Buffer::new();
    let mut reporter = Reporter(buffer.clone());
    match interpreter.run_tests(source_file, &mut reporter) {
        Ok(()) => panic!("expected an error"),
        Err(error) => assert_eq!(
            unansi(&error.to_display_string()),
            "error: Unexpected token: Open Parenthesis, expected function name (Identifier)\n  ╭▸ script.effy:1:11\n  │\n1 │ @Test fun (\n  ╰╴          ━ expected function name (Identifier) here"
        ),
    }
    assert_eq!(buffer.contents(), "");
}

#[test]
fn native_errors_are_passed_on() {
    let source_file = SourceFile::new("script.effy", "assert(false);");
    let mut interpreter = Interpreter::new();
    let buffer = Buffer::new();
    interpreter.add_native_function("assert", Assert(buffer.clone()));
    match interpreter.run_script(source_file) {
        Ok(_) => panic!("expected an error"),
        Err(error) => assert_eq!(error.to_display_string(), "assertion failed"),
    }
    assert_eq!(buffer.contents(), "ASSERT #false\n");
}

#[test]
fn eval_pieces_directly() {
    let mut interpreter = Interpreter::new();
    let buffer = Buffer::new();
    interpreter.add_native_function("println", Println(buffer.clone()));
    let source_file = SourceFile::new("script.effy", "println(40);");
    let script = effy::parser::parse_script(&source_file).unwrap_or_else(|_| panic!("parse"));
    let statement = &script.data.statements[0];
    let value = match interpreter.eval_statement(statement) {
        Ok(v) => v,
        Err(_) => panic!("eval"),
    };
    assert_eq!(value.to_display_string(), "unit");
    assert_eq!(buffer.contents(), "PRINTLN 40i64\n");
}

#[test]
fn evaluating_expressions_and_environments() {
    let mut interpreter = Interpreter::new();
    let source_file = SourceFile::new("script.effy", "6*7;f(1);x;");
    let script = match parse_script(&source_file) {
        Ok(script) => script,
        Err(_) => panic!("parse"),
    };
    let expression = |i: usize| match &script.data.statements[i].data {
        Statement::Expression(e) => &e.expression,
        _ => panic!("expected an expression"),
    };
    match interpreter.eval_expression(expression(0)) {
        Ok(v) => assert_eq!(v.to_display_string(), "42i64"),
        Err(_) => panic!("eval"),
    }
    match &expression(0).data {
        Expression::Binary(binary) => {
            assert!(*binary.operator() == BinaryOperator::Multiply);
            match interpreter.eval_binary_expression(binary) {
                Ok(v) => assert_eq!(v.to_display_string(), "42i64"),
                Err(_) => panic!("eval"),
            }
        }
        _ => panic!("expected a binary expression"),
    }
    match &expression(1).data {
        Expression::Call(call) => match interpreter.eval_call(call) {
            Ok(_) => panic!("expected an error"),
            Err(error) => assert_eq!(error.to_display_string(), "Could not resolve binding 'f'"),
        },
        _ => panic!("expected a call"),
    }
    let literal = LiteralExpression { value: Value::string("s") };
    match interpreter.eval_literal(&literal) {
        Ok(v) => assert_eq!(v.to_display_string(), "\"s\""),
        Err(_) => panic!("eval"),
    }
    // while an environment of another store is entered, the bindings of the script are out of sight
    interpreter.add_native_function("x", Println(Buffer::new()));
    let mut scopes = Scopes::new();
    let mut far = Environment::new(&mut scopes);
    for _ in 0..5 {
        far = Environment::new(&mut scopes);
    }
    interpreter.push_environment(far);
    match interpreter.eval_expression(expression(2)) {
        Ok(_) => panic!("expected an error"),
        Err(error) => assert_eq!(error.to_display_string(), "Could not resolve binding 'x'"),
    }
    interpreter.pop_environment();
    match interpreter.eval_expression(expression(2)) {
        Ok(v) => assert_eq!(v.to_display_string(), "<native function 'x'>"),
        Err(_) => panic!("eval"),
    }
}

#[test]
fn values_and_conversions() {
    let value: InterpreterValue = Value::Boolean(true).into();
    assert_eq!(value.to_display_string(), "#true");
    assert_eq!(InterpreterValue::unit().to_display_string(), "unit");
    assert_eq!(InterpreterValue::integer(-12).to_display_string(), "-12i64");
    assert_eq!(InterpreterValue::bool(false).to_display_string(), "#false");
    assert_eq!(InterpreterValue::primitive(Value::string("q")).to_display_string(), "\"q\"");
    assert_eq!(Value::unit().to_display_string(), "unit");
    assert!(matches!(value.clone().value_kind(), ValueKind::PrimitiveValue(Value::Boolean(true))));
}

#[test]
fn nodes_deref_to_their_data() {
    let source_file = SourceFile::new("script.effy", "x;");
    let script = match parse_script(&source_file) {
        Ok(script) => script,
        Err(_) => panic!("parse"),
    };
    let statements = &(*script).statements;
    assert_eq!(statements.len(), 1);
}

#[test]
fn closure_native_function() {
    let mut interpreter = Interpreter::new();
    interpreter.add_native_function_fn("twice", |context: &mut NativeFunctionContext| {
        match context.arguments()[0].value_kind() {
            ValueKind::PrimitiveValue(Value::Int(x)) => Ok(InterpreterValue::integer(x * 2)),
            _ => Err(EffyError::message("not an integer")),
        }
    });
    let result = match interpreter.run_script(SourceFile::new("script.effy", "twice(21);")) {
        Ok(result) => result,
        Err(error) => panic!("unexpected error: {}", error.to_display_string()),
    };
    assert_eq!(result.to_display_string(), "42i64");
}

#[test]
fn event_log_receives_the_reports_in_order() {
    let mut interpreter = Interpreter::new();
    let buffer = Buffer::new();
    interpreter.add_native_function("assert", Assert(buffer.clone()));
    let mut log = TestEventLog::new();
    let source = "@Test fun good() { assert(true); } fun helper() {} @Test fun bad() { assert(false); }";
    assert!(interpreter.run_tests(SourceFile::new("script.effy", source), &mut log).is_ok());
    assert_eq!(log.events.len(), 4);
    assert!(matches!(&log.events[0], TestEvent::TestStarted { test_name } if test_name == "good"));
    assert!(matches!(&log.events[1], TestEvent::TestSuccess { test_name } if test_name == "good"));
    assert!(matches!(&log.events[2], TestEvent::TestStarted { test_name } if test_name == "bad"));
    assert!(matches!(&log.events[3], TestEvent::TestFailed { test_name, .. } if test_name == "bad"));
}

#[test]
fn event_log_unchanged_when_the_script_does_not_parse() {
    let mut interpreter = Interpreter::new();
    let mut log = TestEventLog::new();
    assert!(interpreter.run_tests(SourceFile::new("script.effy", "fun"), &mut log).is_err());
    assert!(log.events.is_empty());
}

#[test]
fn registered_closure_receives_each_call() {
    let calls: Arc<Mutex<Vec<String>>> = Arc::new(Mutex::new(Vec::new()));
    let seen = calls.clone();
    let mut interpreter = Interpreter::new();
    interpreter.add_native_function_fn("println", move |context: &mut NativeFunctionContext| {
        let shown: Vec<String> = context.arguments().iter().map(|v| v.to_display_string()).collect();
        seen.lock().unwrap().push(shown.join(","));
        Ok(InterpreterValue::unit())
    });
    let source = "fun foo() {println(1);} println(0);foo();println(1+2);";
    let result = match interpreter.run_script(SourceFile::new("script.effy", source)) {
        Ok(result) => result,
        Err(error) => panic!("unexpected error: {}", error.to_display_string()),
    };
    assert_eq!(result.to_display_string(), "unit");
    assert_eq!(*calls.lock().unwrap(), vec!["0i64".to_string(), "1i64".to_string(), "3i64".to_string()]);
}
