//! The interpreter: runs scripts and the tests they define.

use crate::ast::{
    binary_view, call_view, expr_view, expr_views, fun_view, ident_view, lemma_expr_views,
    lemma_stmt_views, stmt_view, stmt_views, BinaryExpression, BinaryOperator, CallExpression,
    ExprView, Expression, ExpressionNode, FunctionDefinition, IdentifierNode, LiteralExpression,
    ScriptNode, Statement, StatementNode, VarUseExpression,
};
use crate::environment::{Environment, EnvironmentStack, Scopes};
use crate::message::{EffyError, SourceMessage};
use crate::parser::{failure_error, parse_script, parse_text};
use crate::runtime::{
    unit_view, ClosureFunction, InterpreterValue, NativeFunction, NativeFunctionContext, NativeFunctionHandle,
    NativeFunctionTrait, RuntimeView, ValueKind,
};
use crate::semantics::{
    eval_args, eval_expr, eval_stmt, eval_stmts, has_test_annotation, lemma_args_frame,
    lemma_expr_frame, lemma_stmt_frame, lemma_stmts_frame, lemma_stmts_keep_stack, outcome_matches,
    only_natives, event_items, lemma_event_items_concat, lemma_event_items_natives,
    failure_matches, run_tests_from, spans_of, Interaction, Machine, NativeCall, Run,
    TestEventView, MAX_CALL_DEPTH,
};
use crate::source::SourceFile;
use crate::span::SourceSpan;
use crate::test_event::{event_view, TestEvent, TestEventSink};
use crate::text::{push_str, str_equal};
use crate::value::Value;
use vstd::prelude::*;

verus! {

/// Runs scripts: holds their environments, the native functions the host provides, the
/// source file being run, and the trace of native calls and test reports made so far.
pub struct Interpreter {
    environment_stack: EnvironmentStack,
    scopes: Scopes,
    natives: Vec<NativeFunction>,
    source_file: SourceFile,
    trace: Ghost<Seq<Interaction>>,
}

/// The trace entries that `after` holds beyond those of `before`.
pub open spec fn added(before: Interpreter, after: Interpreter) -> Seq<Interaction> {
    after.trace().skip(before.trace().len() as int)
}

/// The native call `c` is one that `f` may make: handed a context that holds `c`'s
/// arguments and their spans, `f` may give back `c`'s result.
pub open spec fn made_by(f: NativeFunction, c: NativeCall) -> bool {
    exists|context: NativeFunctionContext, result: Result<InterpreterValue, EffyError>|
        #[trigger] f.invoked(context, result) && context.arguments@.map_values(|v: InterpreterValue| v@)
            == c.arguments && context.argument_spans@ == c.argument_spans && c.result == match result {
            Ok(v) => Ok(v@),
            Err(e) => Err(e),
        }
}

/// Every native call in `t` was made by the function registered at its index in `table`.
pub open spec fn calls_made_by(table: Seq<NativeFunction>, t: Seq<Interaction>) -> bool {
    forall|i: int|
        0 <= i < t.len() ==> (#[trigger] t[i] matches Interaction::Native(c) ==> c.index < table.len() && made_by(
            table[c.index as int],
            c,
        ))
}

/// Traces whose native calls were all made by the registered functions, one after the
/// other, make one such trace.
pub proof fn lemma_calls_made_by_concat(table: Seq<NativeFunction>, a: Seq<Interaction>, b: Seq<Interaction>)
    requires
        calls_made_by(table, a),
        calls_made_by(table, b),
    ensures
        calls_made_by(table, a + b),
{
    assert forall|i: int| 0 <= i < (a + b).len() implies (#[trigger] (a + b)[i] matches Interaction::Native(c)
        ==> c.index < table.len() && made_by(table[c.index as int], c)) by {
        if i < a.len() {
            assert((a + b)[i] == a[i]);
        } else {
            assert((a + b)[i] == b[i - a.len()]);
        }
    }
}

/// `after`'s trace extends `before`'s.
pub open spec fn continues(before: Interpreter, after: Interpreter) -> bool {
    &&& before.trace().len() <= after.trace().len()
    &&& after.trace().take(before.trace().len() as int) == before.trace()
}

/// Going from `before` to `after` is the evaluation `run`: it ends in `after`'s state and
/// consumed exactly the entries that were added to the trace.
pub open spec fn ran<T>(before: Interpreter, after: Interpreter, run: Run<T>) -> bool {
    &&& continues(before, after)
    &&& run.machine == after.machine()
    &&& run.used == added(before, after).len()
}

proof fn lemma_trace_steps(t0: Seq<Interaction>, t1: Seq<Interaction>, t2: Seq<Interaction>)
    requires
        t0.len() <= t1.len() <= t2.len(),
        t1.take(t0.len() as int) == t0,
        t2.take(t1.len() as int) == t1,
    ensures
        t2.take(t0.len() as int) == t0,
        t2.skip(t0.len() as int).take(t1.len() - t0.len()) == t1.skip(t0.len() as int),
        t2.skip(t0.len() as int).skip(t1.len() - t0.len()) == t2.skip(t1.len() as int),
        t1.skip(t0.len() as int).take(t1.len() - t0.len()) == t1.skip(t0.len() as int),
{
    assert(t1.skip(t0.len() as int).take(t1.len() - t0.len()) =~= t1.skip(t0.len() as int));
    assert(t2.take(t0.len() as int) =~= t2.take(t1.len() as int).take(t0.len() as int));
    assert(t2.skip(t0.len() as int).take(t1.len() - t0.len()) =~= t1.skip(t0.len() as int));
    assert(t2.skip(t0.len() as int).skip(t1.len() - t0.len()) =~= t2.skip(t1.len() as int));
}

proof fn lemma_calls_made_by_join(
    table: Seq<NativeFunction>,
    t0: Seq<Interaction>,
    t1: Seq<Interaction>,
    t2: Seq<Interaction>,
)
    requires
        t0.len() <= t1.len() <= t2.len(),
        t1.take(t0.len() as int) == t0,
        t2.take(t1.len() as int) == t1,
        calls_made_by(table, t1.skip(t0.len() as int)),
        calls_made_by(table, t2.skip(t1.len() as int)),
    ensures
        calls_made_by(table, t2.skip(t0.len() as int)),
{
    lemma_trace_steps(t0, t1, t2);
    assert(t2.skip(t0.len() as int) =~= t1.skip(t0.len() as int) + t2.skip(t1.len() as int));
    lemma_calls_made_by_concat(table, t1.skip(t0.len() as int), t2.skip(t1.len() as int));
}

proof fn lemma_only_natives_join(t0: Seq<Interaction>, t1: Seq<Interaction>, t2: Seq<Interaction>)
    requires
        t0.len() <= t1.len() <= t2.len(),
        t1.take(t0.len() as int) == t0,
        t2.take(t1.len() as int) == t1,
        only_natives(t1.skip(t0.len() as int)),
        only_natives(t2.skip(t1.len() as int)),
    ensures
        only_natives(t2.skip(t0.len() as int)),
{
    let n0 = t0.len() as int;
    let n1 = t1.len() as int;
    assert forall|i: int| 0 <= i < t2.skip(n0).len() implies #[trigger] t2.skip(n0)[i] is Native by {
        if i < n1 - n0 {
            assert(t2.skip(n0)[i] == t2.take(n1)[n0 + i]);
            assert(t1.skip(n0)[i] == t1[n0 + i]);
        } else {
            assert(t2.skip(n0)[i] == t2.skip(n1)[i - (n1 - n0)]);
        }
    }
}

impl Interpreter {
    /// The state evaluation works on.
    pub closed spec fn machine(&self) -> Machine {
        Machine {
            scopes: self.scopes@,
            stack: self.environment_stack@,
            natives: self.natives@.map_values(|f: NativeFunction| f.spec_name()),
        }
    }

    /// The native calls and test reports made so far.
    pub closed spec fn trace(&self) -> Seq<Interaction> {
        self.trace@
    }

    /// The native functions registered so far, by index.
    pub closed spec fn natives_table(&self) -> Seq<NativeFunction> {
        self.natives@
    }

    /// The source file being run; errors point into it.
    pub closed spec fn file(&self) -> SourceFile {
        self.source_file
    }

    /// An interpreter with one empty environment, no native functions, and an empty file.
    pub fn new() -> (r: Interpreter)
        ensures
            r.machine() == (Machine {
                scopes: seq![crate::environment::empty_scope(None)],
                stack: seq![0nat],
                natives: seq![],
            }),
            r.trace() == Seq::<Interaction>::empty(),
            r.file().text() == Seq::<char>::empty(),
            r.file().file_path() == "<uninitialized>"@,
    {
        let mut scopes = Scopes::new();
        let environment_stack = EnvironmentStack::new(&mut scopes);
        proof {
            reveal_strlit("");
        }
        let source_file = SourceFile::new("<uninitialized>", "");
        assert(source_file.file_path() == "<uninitialized>"@);
        let r = Interpreter {
            environment_stack,
            scopes,
            natives: Vec::new(),
            source_file,
            trace: Ghost(Seq::empty()),
        };
        assert(r.machine().natives =~= Seq::<Seq<char>>::empty());
        assert(r.machine().scopes =~= seq![crate::environment::empty_scope(None)]);
        r
    }

    /// Makes a host function known to scripts under `name`, in the innermost environment.
    pub fn add_native_function<F: NativeFunctionTrait + 'static>(&mut self, name: &str, function: F)
        ensures
            final(self).machine() == crate::semantics::bind(
                Machine { natives: old(self).machine().natives.push(name@), ..old(self).machine() },
                name@,
                RuntimeView::Native(name@, old(self).machine().natives.len()),
            ),
            final(self).trace() == old(self).trace(),
            final(self).file() == old(self).file(),
            final(self).natives_table().len() == old(self).natives_table().len() + 1,
            final(self).natives_table().drop_last() == old(self).natives_table(),
            final(self).natives_table().last().spec_name() == name@,
            forall|c: NativeFunctionContext, res: Result<InterpreterValue, EffyError>|
                #[trigger] final(self).natives_table().last().invoked(c, res) == function.invoked(c, res),
    {
        let index = self.natives.len();
        self.natives.push(NativeFunction::new(name, function));
        let value = InterpreterValue::native_function(NativeFunctionHandle::new(index, name));
        let environment = *self.environment_stack.top();
        environment.add(&mut self.scopes, name, value);
        assert(self.machine().natives =~= old(self).machine().natives.push(name@));
        assert(self.natives_table().drop_last() =~= old(self).natives_table());
    }

    /// Makes a closure known to scripts under `name`, as `add_native_function` does; the
    /// closure must accept every context it may be handed.
    pub fn add_native_function_fn<F: Fn(&mut NativeFunctionContext) -> Result<InterpreterValue, EffyError> + 'static>(
        &mut self,
        name: &str,
        function: F,
    )
        requires
            forall|c: &mut NativeFunctionContext| call_requires(function, (c,)),
        ensures
            final(self).machine() == crate::semantics::bind(
                Machine { natives: old(self).machine().natives.push(name@), ..old(self).machine() },
                name@,
                RuntimeView::Native(name@, old(self).machine().natives.len()),
            ),
            final(self).trace() == old(self).trace(),
            final(self).file() == old(self).file(),
            final(self).natives_table().len() == old(self).natives_table().len() + 1,
            final(self).natives_table().drop_last() == old(self).natives_table(),
            final(self).natives_table().last().spec_name() == name@,
            forall|context: NativeFunctionContext, result: Result<InterpreterValue, EffyError>|
                #[trigger] final(self).natives_table().last().invoked(context, result) == exists|
                    c: &mut NativeFunctionContext,
                | *c == context && call_ensures(function, (c,), result),
    {
        self.add_native_function(name, ClosureFunction::new(function));
    }

    /// Enters `environment` as the innermost one.
    pub fn push_environment(&mut self, environment: Environment)
        ensures
            final(self).machine() == (Machine {
                stack: old(self).machine().stack.push(environment.id()),
                ..old(self).machine()
            }),
            final(self).trace() == old(self).trace(),
            final(self).file() == old(self).file(),
    {
        self.environment_stack.push(environment);
    }

    /// Leaves the innermost environment; the outermost one is never left.
    pub fn pop_environment(&mut self)
        requires
            old(self).machine().stack.len() >= 2,
        ensures
            final(self).machine() == (Machine { stack: old(self).machine().stack.drop_last(), ..old(self).machine() }),
            final(self).trace() == old(self).trace(),
            final(self).file() == old(self).file(),
    {
        self.environment_stack.pop();
    }

    /// The error for a name bound nowhere: a source error labelling the name where its span
    /// lies in the file, else a plain message.
    fn unresolved_error(&self, name: &IdentifierNode) -> (r: EffyError)
        ensures
            failure_matches(r, crate::semantics::Failure::Unresolved(name.data.name@, name.span), self.file()),
    {
        let mut message = "Could not resolve binding '".to_owned();
        push_str(&mut message, name.data.name.as_str());
        push_str(&mut message, "'");
        proof {
            reveal_strlit("Could not resolve binding '");
            reveal_strlit("'");
            reveal_strlit("name could not be found");
        }
        let span = &name.span;
        let fits = span.start() <= span.end() && match self.source_file.index_of_offset(span.start()) {
            Some(_) => match self.source_file.index_of_offset(span.end()) {
                Some(_) => true,
                None => false,
            },
            None => false,
        };
        if fits {
            let builder = SourceMessage::error_builder(&self.source_file, message).label(
                span.clone(),
                "name could not be found",
            );
            proof {
                assert(builder.spec_labels() =~= seq![builder.spec_labels()[0]]);
            }
            builder.build_error()
        } else {
            EffyError::Message(message)
        }
    }

    /// Looks up a variable in the innermost environment.
    pub fn eval_var_use(&mut self, var_use: &VarUseExpression) -> (r: Result<InterpreterValue, EffyError>)
        ensures
            ({
                let run = eval_expr(
                    old(self).machine(),
                    ExprView::VarUse(ident_view(var_use.name)),
                    MAX_CALL_DEPTH as nat,
                    added(*old(self), *final(self)),
                );
                &&& ran(*old(self), *final(self), run)
                &&& outcome_matches(r, run.result, old(self).file())
            }),
            final(self).file() == old(self).file(),
            only_natives(added(*old(self), *final(self))),
            final(self).natives_table() == old(self).natives_table(),
            calls_made_by(old(self).natives_table(), added(*old(self), *final(self))),
            final(self).trace() == old(self).trace(),
    {
        let environment = *self.environment_stack.top();
        assert(self.trace@.take(self.trace@.len() as int) =~= self.trace@);
        match environment.get(&self.scopes, var_use.name.data.name.as_str()) {
            Some(value) => Ok(value),
            None => Err(self.unresolved_error(&var_use.name)),
        }
    }

    /// The value of a literal.
    pub fn eval_literal(&mut self, literal: &LiteralExpression) -> (r: Result<InterpreterValue, EffyError>)
        ensures
            r matches Ok(v) && v@ == RuntimeView::Primitive(literal.value@),
            *final(self) == *old(self),
    {
        Ok(InterpreterValue::primitive(literal.value.clone()))
    }
    /// Evaluates an expression, following calls of coded functions `depth` deep.
    fn eval_expression_in(&mut self, expression: &ExpressionNode, depth: u64) -> (r: Result<InterpreterValue, EffyError>)
        ensures
            ({
                let run = eval_expr(old(self).machine(), expr_view(*expression).expr, depth as nat, added(*old(self), *final(self)));
                &&& ran(*old(self), *final(self), run)
                &&& outcome_matches(r, run.result, old(self).file())
            }),
            final(self).file() == old(self).file(),
            only_natives(added(*old(self), *final(self))),
            final(self).natives_table() == old(self).natives_table(),
            calls_made_by(old(self).natives_table(), added(*old(self), *final(self))),
        decreases depth, crate::semantics::expr_size(expr_view(*expression).expr), 1int,
    {
        match &expression.data {
            Expression::Literal(literal) => {
                assert(self.trace@.take(self.trace@.len() as int) =~= self.trace@);
                Ok(InterpreterValue::primitive(literal.value.clone()))
            },
            Expression::VarUse(var_use) => self.eval_var_use(var_use),
            Expression::Call(call) => self.eval_call_in(call, depth),
            Expression::Binary(binary) => self.eval_binary_in(binary, depth),
        }
    }

    /// Evaluates the arguments from index `i` on, left to right, appending their values.
    fn eval_arguments_in(
        &mut self,
        arguments: &Vec<ExpressionNode>,
        i: usize,
        depth: u64,
        values: &mut Vec<InterpreterValue>,
    ) -> (r: Result<(), EffyError>)
        requires
            i <= arguments.len(),
        ensures
            ({
                let run = eval_args(
                    old(self).machine(),
                    expr_views(*arguments, 0),
                    i as int,
                    depth as nat,
                    added(*old(self), *final(self)),
                );
                &&& ran(*old(self), *final(self), run)
                &&& match r {
                    Ok(_) => run.result matches Ok(vs) && final(values)@.map_values(|v: InterpreterValue| v@)
                        == old(values)@.map_values(|v: InterpreterValue| v@) + vs,
                    Err(e) => run.result matches Err(f) && failure_matches(e, f, old(self).file()),
                }
            }),
            final(self).file() == old(self).file(),
            only_natives(added(*old(self), *final(self))),
            final(self).natives_table() == old(self).natives_table(),
            calls_made_by(old(self).natives_table(), added(*old(self), *final(self))),
        decreases depth, crate::semantics::args_size(expr_views(*arguments, 0), i as int), 0int,
    {
        let ghost views = expr_views(*arguments, 0);
        proof {
            lemma_expr_views(*arguments, 0);
            assert(arguments@.subrange(0, arguments@.len() as int) =~= arguments@);
        }
        if i >= arguments.len() {
            assert(self.trace@.take(self.trace@.len() as int) =~= self.trace@);
            assert(values@.map_values(|v: InterpreterValue| v@) + seq![] =~= values@.map_values(|v: InterpreterValue| v@));
            return Ok(());
        }
        let ghost s0 = *self;
        assert(views[i as int] == expr_view(arguments@[i as int]));
        let value = match self.eval_expression_in(&arguments[i], depth) {
            Ok(v) => v,
            Err(e) => {
                return Err(e);
            },
        };
        let ghost s1 = *self;
        let ghost before = values@.map_values(|v: InterpreterValue| v@);
        values.push(value);
        assert(values@.map_values(|v: InterpreterValue| v@) =~= before + seq![value@]);
        let result = self.eval_arguments_in(arguments, i + 1, depth, values);
        proof {
            let t = added(s0, *self);
            let e1 = added(s0, s1);
            lemma_trace_steps(s0.trace(), s1.trace(), self.trace());
            lemma_only_natives_join(s0.trace(), s1.trace(), self.trace());
            lemma_calls_made_by_join(s0.natives_table(), s0.trace(), s1.trace(), self.trace());
            lemma_expr_frame(s0.machine(), views[i as int].expr, depth as nat, e1, t);
            assert(t.skip(e1.len() as int) == added(s1, *self));
            if let Ok(_) = result {
                let rest = eval_args(s1.machine(), views, i + 1, depth as nat, added(s1, *self));
                assert(before + (seq![value@] + rest.result->Ok_0) =~= before + seq![value@] + rest.result->Ok_0);
            }
        }
        result
    }

    /// Evaluates a call: the arguments, then the callee, then the function it denotes.
    #[verifier::spinoff_prover]
    #[verifier::rlimit(80)]
    fn eval_call_in(&mut self, call: &CallExpression, depth: u64) -> (r: Result<InterpreterValue, EffyError>)
        ensures
            ({
                let run = eval_expr(old(self).machine(), call_view(*call), depth as nat, added(*old(self), *final(self)));
                &&& ran(*old(self), *final(self), run)
                &&& outcome_matches(r, run.result, old(self).file())
            }),
            final(self).file() == old(self).file(),
            only_natives(added(*old(self), *final(self))),
            final(self).natives_table() == old(self).natives_table(),
            calls_made_by(old(self).natives_table(), added(*old(self), *final(self))),
        decreases depth, crate::semantics::expr_size(call_view(*call)), 0int,
    {
        let ghost s0 = *self;
        let ghost views = expr_views(call.arguments, 0);
        let mut arguments: Vec<InterpreterValue> = Vec::new();
        let args_result = self.eval_arguments_in(&call.arguments, 0, depth, &mut arguments);
        proof {
            assert(Seq::<InterpreterValue>::empty().map_values(|v: InterpreterValue| v@) =~= Seq::<RuntimeView>::empty());
        }
        match args_result {
            Ok(()) => {},
            Err(e) => {
                return Err(e);
            },
        }
        let ghost s1 = *self;
        let ghost a = eval_args(s0.machine(), views, 0, depth as nat, added(s0, s1));
        assert(arguments@.map_values(|v: InterpreterValue| v@) =~= a.result->Ok_0);
        let callee_result = self.eval_expression_in(&call.callee, depth);
        let ghost s2 = *self;
        proof {
            lemma_trace_steps(s0.trace(), s1.trace(), s2.trace());
            lemma_only_natives_join(s0.trace(), s1.trace(), s2.trace());
            lemma_calls_made_by_join(s0.natives_table(), s0.trace(), s1.trace(), s2.trace());
            lemma_args_frame(s0.machine(), views, 0, depth as nat, added(s0, s1), added(s0, s2));
            assert(added(s0, s2).skip(added(s0, s1).len() as int) == added(s1, s2));
        }
        let callee = match callee_result {
            Ok(v) => v,
            Err(e) => {
                return Err(e);
            },
        };
        let ghost c = eval_expr(s1.machine(), expr_view(*call.callee).expr, depth as nat, added(s1, s2));
        let ghost k = a.used + c.used;
        match callee.value_kind() {
            ValueKind::NativeFunction(handle) => {
                let index = handle.index();
                if index >= self.natives.len() {
                    let mut message = "Expression value is not callable: ".to_owned();
                    let shown = callee.to_display_string();
                    push_str(&mut message, shown.as_str());
                    proof {
                        reveal_strlit("Expression value is not callable: ");
                    }
                    return Err(EffyError::Message(message));
                }
                let mut spans: Vec<SourceSpan> = Vec::new();
                let mut j: usize = 0;
                proof {
                    lemma_expr_views(call.arguments, 0);
                    assert(call.arguments@.subrange(0, call.arguments@.len() as int) =~= call.arguments@);
                }
                while j < call.arguments.len()
                    invariant
                        j <= call.arguments.len(),
                        views == expr_views(call.arguments, 0),
                        views.len() == call.arguments.len(),
                        forall|x: int| 0 <= x < views.len() ==> #[trigger] views[x] == expr_view(call.arguments@[x]),
                        spans@ == spans_of(views).take(j as int),
                    decreases call.arguments.len() - j,
                {
                    spans.push(call.arguments[j].span.clone());
                    assert(spans@ =~= spans_of(views).take(j + 1));
                    j = j + 1;
                }
                assert(spans@ =~= spans_of(views));
                let mut context = NativeFunctionContext { arguments, argument_spans: spans };
                // the entry records what the native function is handed, as it is handed
                let ghost sent = context;
                let result = self.natives[index].invoke(&mut context);
                proof {
                    let entry = Interaction::Native(
                        NativeCall {
                            index: index as nat,
                            name: self.natives@[index as int].spec_name(),
                            arguments: sent.arguments@.map_values(|v: InterpreterValue| v@),
                            argument_spans: sent.argument_spans@,
                            result: match &result {
                                Ok(v) => Ok(v@),
                                Err(e) => Err(*e),
                            },
                        },
                    );
                    self.trace@ = self.trace@.push(entry);
                    assert(self.trace().take(s2.trace().len() as int) =~= s2.trace());
                    lemma_trace_steps(s0.trace(), s2.trace(), self.trace());
                    let t = added(s0, *self);
                    lemma_trace_steps(s1.trace(), s2.trace(), self.trace());
                    lemma_trace_steps(s0.trace(), s1.trace(), self.trace());
                    lemma_args_frame(s0.machine(), views, 0, depth as nat, added(s0, s1), t);
                    lemma_expr_frame(s1.machine(), expr_view(*call.callee).expr, depth as nat, added(s1, s2), added(s1, *self));
                    assert(t.skip(a.used as int) == added(s1, *self));
                    assert(t.skip(k as int) =~= seq![entry]);
                    assert(self.trace().skip(s2.trace().len() as int) =~= seq![entry]);
                    lemma_only_natives_join(s0.trace(), s2.trace(), self.trace());
                    assert(made_by(self.natives@[index as int], entry->Native_0));
                    assert(calls_made_by(s0.natives_table(), seq![entry]));
                    lemma_calls_made_by_join(s0.natives_table(), s0.trace(), s2.trace(), self.trace());
                }
                result
            },
            ValueKind::CodedFunction(coded) => {
                if depth == 0 {
                    proof {
                        reveal_strlit("Maximum call depth exceeded");
                    }
                    return Err(EffyError::message("Maximum call depth exceeded"));
                }
                let environment = coded.environment().new_child(&mut self.scopes);
                let _ = self.environment_stack.len();
                self.environment_stack.push(environment);
                let ghost s3 = *self;
                let body = coded.function_definition().statements();
                let body_result = self.eval_statements_in(body, 0, InterpreterValue::unit(), depth - 1);
                let ghost s4 = *self;
                let ghost b = eval_stmts(s3.machine(), stmt_views(*body, 0), 0, unit_view(), (depth - 1) as nat, added(s3, s4));
                proof {
                    lemma_trace_steps(s0.trace(), s2.trace(), s4.trace());
                    lemma_trace_steps(s1.trace(), s2.trace(), s4.trace());
                    lemma_trace_steps(s0.trace(), s1.trace(), s4.trace());
                    lemma_args_frame(s0.machine(), views, 0, depth as nat, added(s0, s1), added(s0, s4));
                    lemma_expr_frame(s1.machine(), expr_view(*call.callee).expr, depth as nat, added(s1, s2), added(s1, s4));
                    assert(added(s0, s4).skip(a.used as int) == added(s1, s4));
                    assert(added(s0, s4).skip(k as int) =~= added(s3, s4));
                    lemma_stmts_keep_stack(s3.machine(), stmt_views(*body, 0), 0, unit_view(), (depth - 1) as nat, added(s3, s4));
                    lemma_only_natives_join(s0.trace(), s2.trace(), s4.trace());
                    lemma_calls_made_by_join(s0.natives_table(), s0.trace(), s2.trace(), s4.trace());
                }
                let value = match body_result {
                    Ok(v) => v,
                    Err(e) => {
                        return Err(e);
                    },
                };
                self.environment_stack.pop();
                Ok(value)
            },
            ValueKind::PrimitiveValue(_) => {
                let mut message = "Expression value is not callable: ".to_owned();
                let shown = callee.to_display_string();
                push_str(&mut message, shown.as_str());
                proof {
                    reveal_strlit("Expression value is not callable: ");
                }
                Err(EffyError::Message(message))
            },
        }
    }

    /// Evaluates a binary expression: the left operand, then the right one.
    fn eval_binary_in(&mut self, binary: &BinaryExpression, depth: u64) -> (r: Result<InterpreterValue, EffyError>)
        ensures
            ({
                let run = eval_expr(old(self).machine(), binary_view(*binary), depth as nat, added(*old(self), *final(self)));
                &&& ran(*old(self), *final(self), run)
                &&& outcome_matches(r, run.result, old(self).file())
            }),
            final(self).file() == old(self).file(),
            only_natives(added(*old(self), *final(self))),
            final(self).natives_table() == old(self).natives_table(),
            calls_made_by(old(self).natives_table(), added(*old(self), *final(self))),
        decreases depth, crate::semantics::expr_size(binary_view(*binary)), 0int,
    {
        let ghost s0 = *self;
        let left = match self.eval_expression_in(&binary.left, depth) {
            Ok(v) => v,
            Err(e) => {
                return Err(e);
            },
        };
        let ghost s1 = *self;
        let right_result = self.eval_expression_in(&binary.right, depth);
        proof {
            lemma_trace_steps(s0.trace(), s1.trace(), self.trace());
            lemma_only_natives_join(s0.trace(), s1.trace(), self.trace());
            lemma_calls_made_by_join(s0.natives_table(), s0.trace(), s1.trace(), self.trace());
            lemma_expr_frame(s0.machine(), expr_view(*binary.left).expr, depth as nat, added(s0, s1), added(s0, *self));
            assert(added(s0, *self).skip(added(s0, s1).len() as int) == added(s1, *self));
        }
        let right = match right_result {
            Ok(v) => v,
            Err(e) => {
                return Err(e);
            },
        };
        proof {
            reveal_strlit("Integer overflow in binary expression");
            reveal_strlit("Could not eval binary expression");
            reveal_strlit("Unsupported binary expression for ints: '");
            reveal_strlit("'");
        }
        match left.value_kind() {
            ValueKind::PrimitiveValue(Value::Int(x)) => match right.value_kind() {
                ValueKind::PrimitiveValue(Value::Int(y)) => match binary.operator {
                    BinaryOperator::Add => match x.checked_add(*y) {
                        Some(z) => Ok(InterpreterValue::integer(z)),
                        None => Err(EffyError::message("Integer overflow in binary expression")),
                    },
                    BinaryOperator::Multiply => match x.checked_mul(*y) {
                        Some(z) => Ok(InterpreterValue::integer(z)),
                        None => Err(EffyError::message("Integer overflow in binary expression")),
                    },
                    BinaryOperator::Equals => Ok(InterpreterValue::bool(*x == *y)),
                    _ => {
                        let mut message = "Unsupported binary expression for ints: '".to_owned();
                        push_str(&mut message, binary.operator.as_str());
                        push_str(&mut message, "'");
                        Err(EffyError::Message(message))
                    },
                },
                _ => Err(EffyError::message("Could not eval binary expression")),
            },
            _ => Err(EffyError::message("Could not eval binary expression")),
        }
    }

    /// Evaluates a statement, following calls `depth` deep.
    fn eval_statement_in(&mut self, statement: &StatementNode, depth: u64) -> (r: Result<InterpreterValue, EffyError>)
        ensures
            ({
                let run = eval_stmt(old(self).machine(), stmt_view(*statement).stmt, depth as nat, added(*old(self), *final(self)));
                &&& ran(*old(self), *final(self), run)
                &&& outcome_matches(r, run.result, old(self).file())
            }),
            final(self).file() == old(self).file(),
            only_natives(added(*old(self), *final(self))),
            final(self).natives_table() == old(self).natives_table(),
            calls_made_by(old(self).natives_table(), added(*old(self), *final(self))),
        decreases depth, crate::semantics::stmt_size(stmt_view(*statement).stmt), 1int,
    {
        match &statement.data {
            Statement::Expression(expression) => self.eval_expression_in(&expression.expression, depth),
            Statement::FunctionDefinition(definition) => {
                let environment = *self.environment_stack.top();
                let function = definition.function_definition.data.clone();
                let value = InterpreterValue::coded_function(function, environment);
                environment.add(
                    &mut self.scopes,
                    definition.function_definition.data.name().data.name.as_str(),
                    value.clone(),
                );
                assert(self.trace@.take(self.trace@.len() as int) =~= self.trace@);
                Ok(value)
            },
        }
    }

    /// Evaluates the statements from index `i` on; the value of the last, or `last`.
    fn eval_statements_in(
        &mut self,
        statements: &Vec<StatementNode>,
        i: usize,
        last: InterpreterValue,
        depth: u64,
    ) -> (r: Result<InterpreterValue, EffyError>)
        requires
            i <= statements.len(),
        ensures
            ({
                let run = eval_stmts(
                    old(self).machine(),
                    stmt_views(*statements, 0),
                    i as int,
                    last@,
                    depth as nat,
                    added(*old(self), *final(self)),
                );
                &&& ran(*old(self), *final(self), run)
                &&& outcome_matches(r, run.result, old(self).file())
            }),
            final(self).file() == old(self).file(),
            only_natives(added(*old(self), *final(self))),
            final(self).natives_table() == old(self).natives_table(),
            calls_made_by(old(self).natives_table(), added(*old(self), *final(self))),
        decreases depth, crate::semantics::stmts_size(stmt_views(*statements, 0), i as int), 0int,
    {
        let ghost views = stmt_views(*statements, 0);
        proof {
            lemma_stmt_views(*statements, 0);
            assert(statements@.subrange(0, statements@.len() as int) =~= statements@);
        }
        if i >= statements.len() {
            assert(self.trace@.take(self.trace@.len() as int) =~= self.trace@);
            return Ok(last);
        }
        let ghost s0 = *self;
        assert(views[i as int] == stmt_view(statements@[i as int]));
        let value = match self.eval_statement_in(&statements[i], depth) {
            Ok(v) => v,
            Err(e) => {
                return Err(e);
            },
        };
        let ghost s1 = *self;
        let ghost v = value@;
        let result = self.eval_statements_in(statements, i + 1, value, depth);
        proof {
            lemma_trace_steps(s0.trace(), s1.trace(), self.trace());
            lemma_only_natives_join(s0.trace(), s1.trace(), self.trace());
            lemma_calls_made_by_join(s0.natives_table(), s0.trace(), s1.trace(), self.trace());
            lemma_stmt_frame(s0.machine(), views[i as int].stmt, depth as nat, added(s0, s1), added(s0, *self));
            assert(added(s0, *self).skip(added(s0, s1).len() as int) == added(s1, *self));
        }
        result
    }
    /// Evaluates an expression.
    pub fn eval_expression(&mut self, expression: &ExpressionNode) -> (r: Result<InterpreterValue, EffyError>)
        ensures
            ({
                let run = eval_expr(
                    old(self).machine(),
                    expr_view(*expression).expr,
                    MAX_CALL_DEPTH as nat,
                    added(*old(self), *final(self)),
                );
                &&& ran(*old(self), *final(self), run)
                &&& outcome_matches(r, run.result, old(self).file())
            }),
            final(self).file() == old(self).file(),
            only_natives(added(*old(self), *final(self))),
            final(self).natives_table() == old(self).natives_table(),
            calls_made_by(old(self).natives_table(), added(*old(self), *final(self))),
    {
        self.eval_expression_in(expression, MAX_CALL_DEPTH)
    }

    /// Evaluates a call: the arguments, then the callee, then the function it denotes.
    pub fn eval_call(&mut self, call: &CallExpression) -> (r: Result<InterpreterValue, EffyError>)
        ensures
            ({
                let run = eval_expr(old(self).machine(), call_view(*call), MAX_CALL_DEPTH as nat, added(*old(self), *final(self)));
                &&& ran(*old(self), *final(self), run)
                &&& outcome_matches(r, run.result, old(self).file())
            }),
            final(self).file() == old(self).file(),
            only_natives(added(*old(self), *final(self))),
            final(self).natives_table() == old(self).natives_table(),
            calls_made_by(old(self).natives_table(), added(*old(self), *final(self))),
    {
        self.eval_call_in(call, MAX_CALL_DEPTH)
    }

    /// Evaluates a binary expression.
    pub fn eval_binary_expression(&mut self, binary_expression: &BinaryExpression) -> (r: Result<InterpreterValue, EffyError>)
        ensures
            ({
                let run = eval_expr(
                    old(self).machine(),
                    binary_view(*binary_expression),
                    MAX_CALL_DEPTH as nat,
                    added(*old(self), *final(self)),
                );
                &&& ran(*old(self), *final(self), run)
                &&& outcome_matches(r, run.result, old(self).file())
            }),
            final(self).file() == old(self).file(),
            only_natives(added(*old(self), *final(self))),
            final(self).natives_table() == old(self).natives_table(),
            calls_made_by(old(self).natives_table(), added(*old(self), *final(self))),
    {
        self.eval_binary_in(binary_expression, MAX_CALL_DEPTH)
    }

    /// Evaluates a statement.
    pub fn eval_statement(&mut self, statement: &StatementNode) -> (r: Result<InterpreterValue, EffyError>)
        ensures
            ({
                let run = eval_stmt(
                    old(self).machine(),
                    stmt_view(*statement).stmt,
                    MAX_CALL_DEPTH as nat,
                    added(*old(self), *final(self)),
                );
                &&& ran(*old(self), *final(self), run)
                &&& outcome_matches(r, run.result, old(self).file())
            }),
            final(self).file() == old(self).file(),
            only_natives(added(*old(self), *final(self))),
            final(self).natives_table() == old(self).natives_table(),
            calls_made_by(old(self).natives_table(), added(*old(self), *final(self))),
    {
        self.eval_statement_in(statement, MAX_CALL_DEPTH)
    }

    /// Evaluates the statements of a script; the value of the last one, or unit.
    pub fn eval_script(&mut self, script: &ScriptNode) -> (r: Result<InterpreterValue, EffyError>)
        ensures
            ({
                let run = eval_stmts(
                    old(self).machine(),
                    stmt_views(script.data.statements, 0),
                    0,
                    unit_view(),
                    MAX_CALL_DEPTH as nat,
                    added(*old(self), *final(self)),
                );
                &&& ran(*old(self), *final(self), run)
                &&& outcome_matches(r, run.result, old(self).file())
            }),
            final(self).file() == old(self).file(),
            only_natives(added(*old(self), *final(self))),
            final(self).natives_table() == old(self).natives_table(),
            calls_made_by(old(self).natives_table(), added(*old(self), *final(self))),
    {
        self.eval_statements_in(&script.data.statements, 0, InterpreterValue::unit(), MAX_CALL_DEPTH)
    }

    /// Evaluates the body of a test in the innermost environment.
    pub fn eval_test(&mut self, test_definition: &FunctionDefinition) -> (r: Result<(), EffyError>)
        ensures
            ({
                let run = eval_stmts(
                    old(self).machine(),
                    fun_view(*test_definition).statements,
                    0,
                    unit_view(),
                    MAX_CALL_DEPTH as nat,
                    added(*old(self), *final(self)),
                );
                &&& ran(*old(self), *final(self), run)
                &&& match r {
                    Ok(_) => run.result is Ok,
                    Err(e) => run.result matches Err(f) && failure_matches(e, f, old(self).file()),
                }
            }),
            final(self).file() == old(self).file(),
            only_natives(added(*old(self), *final(self))),
            final(self).natives_table() == old(self).natives_table(),
            calls_made_by(old(self).natives_table(), added(*old(self), *final(self))),
    {
        match self.eval_statements_in(test_definition.statements(), 0, InterpreterValue::unit(), MAX_CALL_DEPTH) {
            Ok(_) => Ok(()),
            Err(e) => Err(e),
        }
    }

    /// Runs the tests among the statements from index `i` on, reporting to `callback`.
    #[verifier::spinoff_prover]
    #[verifier::rlimit(80)]
    fn eval_tests_from<S: TestEventSink>(&mut self, statements: &Vec<StatementNode>, i: usize, callback: &mut S)
        requires
            i <= statements.len(),
        ensures
            ({
                let run = run_tests_from(
                    old(self).machine(),
                    stmt_views(*statements, 0),
                    i as int,
                    old(self).file(),
                    added(*old(self), *final(self)),
                );
                &&& ran(*old(self), *final(self), run)
                &&& run.result is Ok
            }),
            final(self).file() == old(self).file(),
            final(self).natives_table() == old(self).natives_table(),
            calls_made_by(old(self).natives_table(), added(*old(self), *final(self))),
            final(callback).keeps_reports() == old(callback).keeps_reports(),
            old(callback).keeps_reports() ==> final(callback).received() == old(callback).received() + event_items(
                added(*old(self), *final(self)),
            ),
        decreases statements.len() - i,
    {
        let ghost views = stmt_views(*statements, 0);
        proof {
            lemma_stmt_views(*statements, 0);
            assert(statements@.subrange(0, statements@.len() as int) =~= statements@);
        }
        if i >= statements.len() {
            assert(self.trace@.take(self.trace@.len() as int) =~= self.trace@);
            assert(self.trace().skip(self.trace().len() as int) =~= Seq::<Interaction>::empty());
            assert(callback.received() + Seq::<TestEventView>::empty() =~= callback.received());
            assert(added(*old(self), *self).len() == 0);
            return;
        }
        let ghost s0 = *self;
        let ghost c0 = callback.received();
        assert(views[i as int] == stmt_view(statements@[i as int]));
        if let Statement::FunctionDefinition(definition) = &statements[i].data {
            let function = &definition.function_definition.data;
            if is_test(function.annotations()) {
                let test_name = function.name().data.name.clone();
                // each report is recorded in the trace from the very value the sink is handed
                let started = TestEvent::TestStarted { test_name: test_name.clone() };
                let ghost started_view = event_view(started);
                let ghost started_entry = Interaction::Event(started_view);
                callback.on_event(started);
                proof {
                    self.trace@ = self.trace@.push(started_entry);
                }
                let ghost s1 = *self;
                let outcome = self.eval_test(function);
                let ghost s2 = *self;
                let report = match outcome {
                    Ok(()) => TestEvent::TestSuccess { test_name },
                    Err(error) => TestEvent::TestFailed { test_name, error },
                };
                let ghost report_view = event_view(report);
                let ghost report_entry = Interaction::Event(report_view);
                callback.on_event(report);
                proof {
                    self.trace@ = self.trace@.push(report_entry);
                }
                let ghost s3 = *self;
                self.eval_tests_from(statements, i + 1, callback);
                proof {
                    let t = added(s0, *self);
                    assert(s1.trace().take(s0.trace().len() as int) =~= s0.trace());
                    assert(s3.trace().take(s2.trace().len() as int) =~= s2.trace());
                    lemma_trace_steps(s2.trace(), s3.trace(), self.trace());
                    lemma_trace_steps(s1.trace(), s2.trace(), self.trace());
                    lemma_trace_steps(s0.trace(), s1.trace(), self.trace());
                    let b = eval_stmts(s1.machine(), fun_view(*function).statements, 0, unit_view(), MAX_CALL_DEPTH as nat, added(s1, s2));
                    assert(t.skip(1) =~= added(s1, *self));
                    lemma_stmts_frame(
                        s1.machine(),
                        fun_view(*function).statements,
                        0,
                        unit_view(),
                        MAX_CALL_DEPTH as nat,
                        added(s1, s2),
                        t.skip(1),
                    );
                    assert(t[0] == s1.trace().last());
                    assert(t[(1 + b.used) as int] == s3.trace().last());
                    assert(t.skip((1 + b.used + 1) as int) =~= added(s3, *self));
                    let f = fun_view(*function);
                    let j = choose|j: int|
                        0 <= j < function.inner.annotations@.len() && #[trigger] function.inner.annotations@[j].data.name@
                            == "Test"@;
                    assert(f.annotations[j].name == "Test"@);
                    assert(has_test_annotation(f));
                    assert(f.name.name == test_name@);
                    assert(views[i as int].stmt == crate::ast::StmtView::FunctionDefinition(f, definition.function_definition.span));
                    // what the sink received
                    let a = added(s1, s2);
                    let rest = added(s3, *self);
                    assert(added(s2, *self) =~= seq![report_entry] + rest);
                    assert(added(s1, *self) =~= a + added(s2, *self));
                    assert(t =~= seq![started_entry] + added(s1, *self));
                    lemma_event_items_natives(a);
                    assert(seq![started_entry].drop_last() =~= Seq::<Interaction>::empty());
                    assert(seq![report_entry].drop_last() =~= Seq::<Interaction>::empty());
                    assert(event_items(Seq::<Interaction>::empty()) == Seq::<TestEventView>::empty());
                    assert(event_items(seq![started_entry]) =~= seq![started_view]);
                    assert(event_items(seq![report_entry]) =~= seq![report_view]);
                    lemma_event_items_concat(seq![report_entry], rest);
                    lemma_event_items_concat(a, added(s2, *self));
                    lemma_event_items_concat(seq![started_entry], added(s1, *self));
                    if callback.keeps_reports() {
                        assert(callback.received() =~= c0 + event_items(t));
                    }
                    let table = s0.natives_table();
                    assert(calls_made_by(table, seq![started_entry]));
                    assert(calls_made_by(table, seq![report_entry]));
                    lemma_calls_made_by_concat(table, seq![report_entry], rest);
                    lemma_calls_made_by_concat(table, a, added(s2, *self));
                    lemma_calls_made_by_concat(table, seq![started_entry], added(s1, *self));
                }
                return;
            }
        }
        self.eval_tests_from(statements, i + 1, callback);
    }

    /// Runs the tests of a script: each function definition annotated `@Test`, in order.
    pub fn eval_tests<S: TestEventSink>(&mut self, script: &ScriptNode, callback: &mut S) -> (r: Result<(), EffyError>)
        ensures
            ({
                let run = run_tests_from(
                    old(self).machine(),
                    stmt_views(script.data.statements, 0),
                    0,
                    old(self).file(),
                    added(*old(self), *final(self)),
                );
                &&& ran(*old(self), *final(self), run)
                &&& run.result is Ok
            }),
            r is Ok,
            final(self).file() == old(self).file(),
            final(self).natives_table() == old(self).natives_table(),
            calls_made_by(old(self).natives_table(), added(*old(self), *final(self))),
            final(callback).keeps_reports() == old(callback).keeps_reports(),
            old(callback).keeps_reports() ==> final(callback).received() == old(callback).received() + event_items(
                added(*old(self), *final(self)),
            ),
    {
        self.eval_tests_from(&script.data.statements, 0, callback);
        Ok(())
    }

    /// Reads `source_file` as a script and evaluates it.
    pub fn run_script(&mut self, source_file: SourceFile) -> (r: Result<InterpreterValue, EffyError>)
        ensures
            final(self).file() == source_file,
            final(self).natives_table() == old(self).natives_table(),
            calls_made_by(old(self).natives_table(), added(*old(self), *final(self))),
            match parse_text(source_file.text()) {
                Err(f) => r matches Err(e) && failure_error(source_file, f, e) && final(self).machine() == old(
                    self,
                ).machine() && final(self).trace() == old(self).trace(),
                Ok((statements, _)) => {
                    let run = eval_stmts(
                        old(self).machine(),
                        statements,
                        0,
                        unit_view(),
                        MAX_CALL_DEPTH as nat,
                        added(*old(self), *final(self)),
                    );
                    &&& ran(*old(self), *final(self), run)
                    &&& outcome_matches(r, run.result, source_file)
                },
            },
    {
        self.source_file = source_file;
        let script = match parse_script(&self.source_file) {
            Ok(script) => script,
            Err(e) => {
                return Err(e);
            },
        };
        self.eval_script(&script)
    }

    /// Reads `source_file` as a script and runs its tests, reporting to `callback`.
    pub fn run_tests<S: TestEventSink>(&mut self, source_file: SourceFile, callback: &mut S) -> (r: Result<(), EffyError>)
        ensures
            final(self).file() == source_file,
            final(self).natives_table() == old(self).natives_table(),
            calls_made_by(old(self).natives_table(), added(*old(self), *final(self))),
            match parse_text(source_file.text()) {
                Err(f) => r matches Err(e) && failure_error(source_file, f, e) && final(self).machine() == old(
                    self,
                ).machine() && final(self).trace() == old(self).trace()
                    && final(callback).received() == old(callback).received()
                    && final(callback).keeps_reports() == old(callback).keeps_reports(),
                Ok((statements, _)) => {
                    let run = run_tests_from(old(self).machine(), statements, 0, source_file, added(*old(self), *final(self)));
                    &&& ran(*old(self), *final(self), run)
                    &&& run.result is Ok
                    &&& r is Ok
                    &&& final(callback).keeps_reports() == old(callback).keeps_reports()
                    &&& old(callback).keeps_reports() ==> final(callback).received() == old(callback).received()
                        + event_items(added(*old(self), *final(self)))
                },
            },
    {
        self.source_file = source_file;
        let script = match parse_script(&self.source_file) {
            Ok(script) => script,
            Err(e) => {
                return Err(e);
            },
        };
        self.eval_tests(&script, callback)
    }
}

/// Whether one of the annotations is `@Test`.
fn is_test(annotations: &Vec<IdentifierNode>) -> (r: bool)
    ensures
        r == exists|i: int| 0 <= i < annotations@.len() && #[trigger] annotations@[i].data.name@ == "Test"@,
{
    let mut i: usize = 0;
    while i < annotations.len()
        invariant
            i <= annotations.len(),
            forall|j: int| 0 <= j < i ==> #[trigger] annotations@[j].data.name@ != "Test"@,
        decreases annotations.len() - i,
    {
        if str_equal(annotations[i].data.name.as_str(), "Test") {
            return true;
        }
        i = i + 1;
    }
    false
}

} // verus!
