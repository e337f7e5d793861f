use effy::ast::{Identifier, Statement};
use effy::message::to_test_string;
use effy::parser::parse_script;
use effy::print::TestPrint;
use effy::source::SourceFile;

fn test_parse_script(source: &str, expected: &str) {
    let source_file = SourceFile::new("script.effy", source);
    let result = match parse_script(&source_file) {
        Ok(result) => result,
        Err(error) => panic!("unexpected error: {}", error.to_display_string()),
    };
    let mut test_string = String::new();
    assert!(result.test_print(&mut test_string, 0).is_ok());
    assert_eq!(test_string, expected);
}

fn test_parse_script_error(source: &str, expected: &str) {
    let source_file = SourceFile::new("script.effy", source);
    let error = match parse_script(&source_file) {
        Ok(_) => panic!("expected error"),
        Err(error) => error,
    };
    assert_eq!(to_test_string(&error), expected);
}

#[test]
fn parse_empty() {
    test_parse_script("", "🌲   0+0  Script\n");
}

#[test]
fn script_empty() {
    test_parse_script("", "🌲   0+0  Script\n");
}

#[test]
fn literal_string() {
    test_parse_script(
        " \"hello\"; ",
        "🌲   0+9  Script\n🌲   1+7   stmt  literal \"hello\"\n",
    );
}

#[test]
fn literal_integer() {
    test_parse_script(" 19; ", "🌲   0+4  Script\n🌲   1+2   stmt  literal 19i64\n");
}

#[test]
fn script_print() {
    test_parse_script(
        "print(\"hello\");",
        "🌲   0+15 Script\n🌲   0+14  stmt  call  var use ❮print❯\n🌲   6+7      literal \"hello\"\n",
    );
}

#[test]
fn script_print_twice() {
    test_parse_script(
        "\n            print(\"hello\");\n            print(\"world\");\n        ",
        "🌲   0+56 Script\n🌲  13+14  stmt  call  var use ❮print❯\n🌲  19+7      literal \"hello\"\n🌲  41+14  stmt  call  var use ❮print❯\n🌲  47+7      literal \"world\"\n",
    );
}

#[test]
fn fun_empty() {
    test_parse_script(
        "fun empty() {}",
        "🌲   0+14 Script\n🌲   0+14  stmt function definition\n🌲   0+14   fun empty\n",
    );
}

#[test]
fn fun_simple() {
    test_parse_script(
        "fun simple() {\n            print(\"hello\");\n        }",
        "🌲   0+52 Script\n🌲   0+52  stmt function definition\n🌲   0+52   fun simple\n🌲  27+14    stmt  call  var use ❮print❯\n🌲  33+7        literal \"hello\"\n",
    );
}

#[test]
fn fun_with_annotation() {
    test_parse_script(
        "\n        @Test\n        fun simple() {\n            print(\"hello\");\n        }",
        "🌲   0+75 Script\n🌲   9+66  stmt function definition\n🌲   9+66   fun simple\n🌲  10+4     ❮Test❯\n🌲  50+14    stmt  call  var use ❮print❯\n🌲  56+7        literal \"hello\"\n",
    );
}

#[test]
fn error_close_paren() {
    test_parse_script_error(
        ")",
        "error: Unexpected token: “)” (Close Parenthesis)\n  ╭▸ script.effy:1:1\n  │\n1 │ )\n  ╰╴━ expected primary expression here\n",
    );
}

#[test]
fn error_fun_no_name() {
    test_parse_script_error(
        "fun () {};",
        "error: Unexpected token: Open Parenthesis, expected function name (Identifier)\n  ╭▸ script.effy:1:5\n  │\n1 │ fun () {};\n  ╰╴    ━ expected function name (Identifier) here\n",
    );
}

#[test]
fn error_no_expression() {
    test_parse_script_error(
        "}",
        "error: Unexpected token: “}” (Close Brace)\n  ╭▸ script.effy:1:1\n  │\n1 │ }\n  ╰╴━ expected primary expression here\n",
    );
}

#[test]
fn binary_precedence() {
    test_parse_script(
        "1+2*3;",
        "🌲   0+6  Script\n🌲   0+5   stmt  binary +\n literal 1i64\n binary *\n literal 2i64\n literal 3i64\n",
    );
}

#[test]
fn boolean_literals() {
    test_parse_script(
        "true;false;",
        "🌲   0+11 Script\n🌲   0+4   stmt  literal #true\n🌲   5+5   stmt  literal #false\n",
    );
}

#[test]
fn error_unterminated_string() {
    test_parse_script_error(
        "\"foo",
        "error: Unterminated string\n  ╭▸ script.effy:1:5\n  │\n1 │ \"foo\n  ╰╴    ━ This string requires a terminating \" character here\n",
    );
}

#[test]
fn error_missing_semicolon() {
    test_parse_script_error(
        "foo",
        "error: Unexpected token: End of File, expected ';'\n  ╭▸ script.effy:1:4\n  │\n1 │ foo\n  ╰╴   ━ expected ';' here\n",
    );
}

#[test]
fn error_invalid_escape() {
    let source_file = SourceFile::new("script.effy", "\"a\\qb\";");
    let error = match parse_script(&source_file) {
        Ok(_) => panic!("expected error"),
        Err(error) => error,
    };
    assert_eq!(error.to_display_string(), "Invalid escape sequence: \\q");
}

#[test]
fn escapes_are_unescaped() {
    test_parse_script(
        "\"a\\tb\\\\\";",
        "🌲   0+9  Script\n🌲   0+8   stmt  literal \"a\tb\\\"\n",
    );
}

#[test]
fn nodes_print_on_their_own() {
    let source_file = SourceFile::new("script.effy", "f(1); @A @B fun g() {}");
    let script = match parse_script(&source_file) {
        Ok(script) => script,
        Err(_) => panic!("parse"),
    };
    let first = &script.data.statements[0];
    match first.test_print_to_string(0) {
        Ok(text) => assert_eq!(text, "🌲   0+4  stmt  call  var use ❮f❯\n🌲   2+1     literal 1i64\n"),
        Err(_) => panic!("print"),
    }
    match script.test_print_to_string(2) {
        Ok(text) => assert_eq!(
            text,
            "🌲   0+22     Script\n🌲   0+4     stmt  call  var use ❮f❯\n🌲   2+1        literal 1i64\n🌲   6+16    stmt function definition\n🌲   6+16     fun g\n🌲   7+1       ❮A❯\n🌲  10+1       ❮B❯\n"
        ),
        Err(_) => panic!("print"),
    }
}

#[test]
fn identifiers_and_spans() {
    let id = Identifier::new("name");
    assert_eq!(id.name(), "name");
    let source_file = SourceFile::new("script.effy", "@Test fun t() {}");
    let script = match parse_script(&source_file) {
        Ok(script) => script,
        Err(_) => panic!("parse"),
    };
    match &script.data.statements[0].data {
        Statement::FunctionDefinition(definition) => {
            let function = &definition.function_definition.data;
            assert_eq!(function.name().data.name(), "t");
            assert_eq!(function.name().span.start(), 10);
            assert_eq!(function.annotations().len(), 1);
            assert_eq!(function.annotations()[0].data.name(), "Test");
            assert!(function.parameters().is_empty());
            assert!(function.statements().is_empty());
        }
        _ => panic!("expected a function definition"),
    }
}

#[test]
fn escaped_text_reads_back() {
    let text = "a\\b\"c\nd\te";
    let lexeme = "\"a\\\\b\\\"c\\nd\\te\"";
    match effy::parser::extract_string_from_lexeme(lexeme) {
        Ok(effy::value::Value::String(s)) => assert_eq!(s, text),
        _ => panic!("expected a string"),
    }
}
