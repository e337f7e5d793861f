//! What running a script means, stated over the mathematical form of the syntax tree.
//!
//! Native functions are the host's; what they return is not known in advance. Evaluation
//! therefore reads their results from a trace of interactions: each call of a native
//! function consumes the next entry, which records the function's name, the arguments it
//! was handed and what it returned. The reports of test runs are entries of the same trace.
//! An evaluation that finds an entry other than the one it needs is stuck.

use crate::ast::{operator_text, BinaryOperator, ExprNodeView, ExprView, FunView, StmtNodeView, StmtView};
use crate::environment::{empty_scope, lookup, ScopeView};
use crate::message::{is_labelled_error, span_in_text, EffyError};
use crate::runtime::{runtime_text, unit_view, RuntimeView};
use crate::source::SourceFile;
use crate::span::SourceSpan;
use crate::value::ValueView;
use vstd::prelude::*;

verus! {

/// The nesting of calls of coded functions that evaluation follows: the whole `u64` range,
/// so that in practice only the machine's stack limits how deep calls nest.
pub const MAX_CALL_DEPTH: u64 = 18446744073709551615;

/// The state evaluation works on: all scopes, the environments of the calls under way
/// (the innermost last), and the names of the native functions, by index.
pub struct Machine {
    pub scopes: Seq<ScopeView>,
    pub stack: Seq<nat>,
    pub natives: Seq<Seq<char>>,
}

/// Why an evaluation stopped.
pub enum Failure {
    /// An error with a message only.
    Message(Seq<char>),
    /// A name that is bound nowhere, and where it was used.
    Unresolved(Seq<char>, SourceSpan),
    /// An error that a native function returned.
    Raised(EffyError),
    /// The trace does not hold the entry that evaluation needs next.
    Stuck,
}

/// A call of a native function: its index among the registered ones and its name, what it
/// was handed, and what it returned.
pub struct NativeCall {
    pub index: nat,
    pub name: Seq<char>,
    pub arguments: Seq<RuntimeView>,
    pub argument_spans: Seq<SourceSpan>,
    pub result: Result<RuntimeView, EffyError>,
}

/// The report of a test.
pub enum TestEventView {
    Started(Seq<char>),
    Success(Seq<char>),
    Failed(Seq<char>, EffyError),
}

/// An entry of the trace.
pub enum Interaction {
    Native(NativeCall),
    Event(TestEventView),
}

/// The test reports among the entries of a trace, in order.
pub open spec fn event_items(t: Seq<Interaction>) -> Seq<TestEventView>
    decreases t.len(),
{
    if t.len() == 0 {
        seq![]
    } else {
        match t.last() {
            Interaction::Event(v) => event_items(t.drop_last()).push(v),
            Interaction::Native(_) => event_items(t.drop_last()),
        }
    }
}

/// Every entry of the trace is a native call.
pub open spec fn only_natives(t: Seq<Interaction>) -> bool {
    forall|i: int| 0 <= i < t.len() ==> #[trigger] t[i] is Native
}

/// The reports of two traces one after the other are those of the first, then those of the second.
pub proof fn lemma_event_items_concat(a: Seq<Interaction>, b: Seq<Interaction>)
    ensures
        event_items(a + b) == event_items(a) + event_items(b),
    decreases b.len(),
{
    if b.len() == 0 {
        assert(a + b =~= a);
        assert(event_items(a) + seq![] =~= event_items(a));
    } else {
        lemma_event_items_concat(a, b.drop_last());
        assert((a + b).drop_last() =~= a + b.drop_last());
        assert((a + b).last() == b.last());
        match b.last() {
            Interaction::Event(v) => {
                assert(event_items(a) + event_items(b.drop_last()).push(v) =~= (event_items(a) + event_items(
                    b.drop_last(),
                )).push(v));
            },
            Interaction::Native(_) => {},
        }
    }
}

/// A trace of native calls holds no reports.
pub proof fn lemma_event_items_natives(t: Seq<Interaction>)
    requires
        only_natives(t),
    ensures
        event_items(t) == Seq::<TestEventView>::empty(),
    decreases t.len(),
{
    if t.len() > 0 {
        assert(t.last() is Native);
        assert forall|i: int| 0 <= i < t.drop_last().len() implies #[trigger] t.drop_last()[i] is Native by {
            assert(t.drop_last()[i] == t[i]);
        }
        lemma_event_items_natives(t.drop_last());
    }
}

/// The outcome of an evaluation, the state after it, and how many trace entries it consumed.
pub struct Run<T> {
    pub result: Result<T, Failure>,
    pub machine: Machine,
    pub used: nat,
}

pub open spec fn fail<T>(f: Failure, m: Machine, used: nat) -> Run<T> {
    Run { result: Err(f), machine: m, used }
}

pub open spec fn stuck<T>(r: Run<T>) -> bool {
    r.result matches Err(Failure::Stuck)
}

/// The innermost environment.
pub open spec fn current_env(m: Machine) -> nat {
    m.stack.last()
}

/// `name` bound to `v` in the innermost environment.
pub open spec fn bind(m: Machine, name: Seq<char>, v: RuntimeView) -> Machine {
    let t = current_env(m);
    if t < m.scopes.len() {
        Machine {
            scopes: m.scopes.update(
                t as int,
                ScopeView { parent: m.scopes[t as int].parent, bindings: m.scopes[t as int].bindings.insert(name, v) },
            ),
            ..m
        }
    } else {
        m
    }
}

/// A new scope, child of `env`, entered as the innermost environment.
pub open spec fn enter(m: Machine, env: nat) -> Machine {
    Machine { scopes: m.scopes.push(empty_scope(Some(env))), stack: m.stack.push(m.scopes.len()), ..m }
}

/// The innermost environment left.
pub open spec fn leave(m: Machine) -> Machine {
    Machine { stack: m.stack.drop_last(), ..m }
}

pub open spec fn depth_message() -> Seq<char> {
    "Maximum call depth exceeded"@
}

pub open spec fn overflow_message() -> Seq<char> {
    "Integer overflow in binary expression"@
}

pub open spec fn unresolved_message(name: Seq<char>) -> Seq<char> {
    "Could not resolve binding '"@ + name + "'"@
}

/// What a binary operator gives on two values: addition, multiplication and equality of
/// integers; an error on anything else, and on a result outside the 64-bit range.
pub open spec fn binary_result(op: BinaryOperator, x: RuntimeView, y: RuntimeView) -> Result<RuntimeView, Failure> {
    match (x, y) {
        (RuntimeView::Primitive(ValueView::Int(a)), RuntimeView::Primitive(ValueView::Int(b))) => match op {
            BinaryOperator::Add => if i64::MIN <= a + b <= i64::MAX {
                Ok(RuntimeView::Primitive(ValueView::Int((a + b) as i64)))
            } else {
                Err(Failure::Message(overflow_message()))
            },
            BinaryOperator::Multiply => if i64::MIN <= a * b <= i64::MAX {
                Ok(RuntimeView::Primitive(ValueView::Int((a * b) as i64)))
            } else {
                Err(Failure::Message(overflow_message()))
            },
            BinaryOperator::Equals => Ok(RuntimeView::Primitive(ValueView::Boolean(a == b))),
            _ => Err(Failure::Message("Unsupported binary expression for ints: '"@ + operator_text(op) + "'"@)),
        },
        _ => Err(Failure::Message("Could not eval binary expression"@)),
    }
}

/// Where each argument expression stands.
pub open spec fn spans_of(args: Seq<ExprNodeView>) -> Seq<SourceSpan> {
    args.map_values(|a: ExprNodeView| a.span)
}

/// The trace starts with a call of the native function registered at `index` as `name`,
/// with these arguments.
pub open spec fn native_call_next(
    t: Seq<Interaction>,
    index: nat,
    name: Seq<char>,
    args: Seq<RuntimeView>,
    spans: Seq<SourceSpan>,
) -> bool {
    &&& t.len() > 0
    &&& t[0] matches Interaction::Native(c)
    &&& c.index == index
    &&& c.name == name
    &&& c.arguments == args
    &&& c.argument_spans == spans
}

/// What the native call at the start of the trace returned.
pub open spec fn native_outcome(t: Seq<Interaction>) -> Result<RuntimeView, Failure> {
    match t[0] {
        Interaction::Native(c) => match c.result {
            Ok(v) => Ok(v),
            Err(e) => Err(Failure::Raised(e)),
        },
        _ => Err(Failure::Stuck),
    }
}

/// The number of nodes of an expression: a measure that evaluation lowers.
pub open spec fn expr_size(e: ExprView) -> nat
    decreases e, 0int,
{
    match e {
        ExprView::Literal(_) => 1,
        ExprView::VarUse(_) => 1,
        ExprView::Binary(left, _, right) => 1 + expr_size(left.expr) + expr_size(right.expr),
        ExprView::Call(callee, args) => 1 + expr_size(callee.expr) + args_size(args, 0),
    }
}

/// The number of nodes of the arguments from index `i` on.
pub open spec fn args_size(args: Seq<ExprNodeView>, i: int) -> nat
    decreases args, args.len() - i,
{
    if 0 <= i < args.len() {
        1 + expr_size(args[i].expr) + args_size(args, i + 1)
    } else {
        0
    }
}

/// The number of nodes of a statement that evaluating it visits.
pub open spec fn stmt_size(s: StmtView) -> nat {
    match s {
        StmtView::Expression(e) => 1 + expr_size(e.expr),
        StmtView::FunctionDefinition(..) => 1,
    }
}

/// The number of nodes of the statements from index `i` on that evaluating them visits.
pub open spec fn stmts_size(stmts: Seq<StmtNodeView>, i: int) -> nat
    decreases stmts.len() - i,
{
    if 0 <= i < stmts.len() {
        1 + stmt_size(stmts[i].stmt) + stmts_size(stmts, i + 1)
    } else {
        0
    }
}

/// Evaluating an expression: its value, or why it has none.
pub open spec fn eval_expr(m: Machine, e: ExprView, depth: nat, t: Seq<Interaction>) -> Run<RuntimeView>
    decreases depth, expr_size(e),
{
    match e {
        ExprView::Literal(v) => Run { result: Ok(RuntimeView::Primitive(v)), machine: m, used: 0 },
        ExprView::VarUse(id) => match lookup(m.scopes, current_env(m), id.name) {
            Some(v) => Run { result: Ok(v), machine: m, used: 0 },
            None => fail(Failure::Unresolved(id.name, id.span), m, 0),
        },
        ExprView::Binary(left, op, right) => {
            let a = eval_expr(m, left.expr, depth, t);
            match a.result {
                Err(f) => fail(f, a.machine, a.used),
                Ok(x) => {
                    let b = eval_expr(a.machine, right.expr, depth, t.skip(a.used as int));
                    match b.result {
                        Err(f) => fail(f, b.machine, a.used + b.used),
                        Ok(y) => Run { result: binary_result(op, x, y), machine: b.machine, used: a.used + b.used },
                    }
                },
            }
        },
        ExprView::Call(callee, args) => {
            let a = eval_args(m, args, 0, depth, t);
            match a.result {
                Err(f) => fail(f, a.machine, a.used),
                Ok(values) => {
                    let c = eval_expr(a.machine, callee.expr, depth, t.skip(a.used as int));
                    let k = a.used + c.used;
                    match c.result {
                        Err(f) => fail(f, c.machine, k),
                        Ok(target) => match target {
                            RuntimeView::Native(name, index) => if index < c.machine.natives.len() {
                                let rest = t.skip(k as int);
                                if native_call_next(rest, index, c.machine.natives[index as int], values, spans_of(args)) {
                                    Run { result: native_outcome(rest), machine: c.machine, used: k + 1 }
                                } else {
                                    fail(Failure::Stuck, c.machine, k)
                                }
                            } else {
                                fail(
                                    Failure::Message("Expression value is not callable: "@ + runtime_text(target)),
                                    c.machine,
                                    k,
                                )
                            },
                            RuntimeView::Coded(f, env) => if depth == 0 {
                                fail(Failure::Message(depth_message()), c.machine, k)
                            } else {
                                let b = eval_stmts(
                                    enter(c.machine, env),
                                    f.statements,
                                    0,
                                    unit_view(),
                                    (depth - 1) as nat,
                                    t.skip(k as int),
                                );
                                match b.result {
                                    Ok(v) => Run { result: Ok(v), machine: leave(b.machine), used: k + b.used },
                                    Err(fl) => fail(fl, b.machine, k + b.used),
                                }
                            },
                            RuntimeView::Primitive(_) => fail(
                                Failure::Message("Expression value is not callable: "@ + runtime_text(target)),
                                c.machine,
                                k,
                            ),
                        },
                    }
                },
            }
        },
    }
}

/// Evaluating the arguments from index `i` on, left to right.
pub open spec fn eval_args(m: Machine, args: Seq<ExprNodeView>, i: int, depth: nat, t: Seq<Interaction>) -> Run<
    Seq<RuntimeView>,
>
    decreases depth, args_size(args, i),
{
    if 0 <= i < args.len() {
        let a = eval_expr(m, args[i].expr, depth, t);
        match a.result {
            Err(f) => fail(f, a.machine, a.used),
            Ok(v) => {
                let r = eval_args(a.machine, args, i + 1, depth, t.skip(a.used as int));
                match r.result {
                    Err(f) => fail(f, r.machine, a.used + r.used),
                    Ok(vs) => Run { result: Ok(seq![v] + vs), machine: r.machine, used: a.used + r.used },
                }
            },
        }
    } else {
        Run { result: Ok(seq![]), machine: m, used: 0 }
    }
}

/// Evaluating a statement: an expression gives its value; a function definition binds the
/// function, with the innermost environment, to its name and gives it.
pub open spec fn eval_stmt(m: Machine, s: StmtView, depth: nat, t: Seq<Interaction>) -> Run<RuntimeView>
    decreases depth, stmt_size(s),
{
    match s {
        StmtView::Expression(e) => eval_expr(m, e.expr, depth, t),
        StmtView::FunctionDefinition(f, _) => {
            let v = RuntimeView::Coded(f, current_env(m));
            Run { result: Ok(v), machine: bind(m, f.name.name, v), used: 0 }
        },
    }
}

/// Evaluating the statements from index `i` on: the value of the last one (`last` when
/// there is none), or the first failure.
pub open spec fn eval_stmts(
    m: Machine,
    stmts: Seq<StmtNodeView>,
    i: int,
    last: RuntimeView,
    depth: nat,
    t: Seq<Interaction>,
) -> Run<RuntimeView>
    decreases depth, stmts_size(stmts, i),
{
    if 0 <= i < stmts.len() {
        let s = eval_stmt(m, stmts[i].stmt, depth, t);
        match s.result {
            Err(f) => fail(f, s.machine, s.used),
            Ok(v) => {
                let r = eval_stmts(s.machine, stmts, i + 1, v, depth, t.skip(s.used as int));
                Run { result: r.result, machine: r.machine, used: s.used + r.used }
            },
        }
    } else {
        Run { result: Ok(last), machine: m, used: 0 }
    }
}

/// `e` is the error the interpreter reports for the failure `f` while running `file`.
pub open spec fn failure_matches(e: EffyError, f: Failure, file: SourceFile) -> bool {
    match f {
        Failure::Message(m) => e matches EffyError::Message(x) && x@ == m,
        Failure::Unresolved(name, span) => if span_in_text(span, file.text()) {
            is_labelled_error(e, file, unresolved_message(name), span, "name could not be found"@)
        } else {
            e matches EffyError::Message(x) && x@ == unresolved_message(name)
        },
        Failure::Raised(e0) => e == e0,
        Failure::Stuck => false,
    }
}

/// `r` is what the interpreter returns for the outcome `f`, its value taken by its view.
pub open spec fn outcome_matches<T: View>(r: Result<T, EffyError>, f: Result<T::V, Failure>, file: SourceFile) -> bool {
    match r {
        Ok(v) => f == Ok::<T::V, Failure>(v@),
        Err(e) => f matches Err(fl) && failure_matches(e, fl, file),
    }
}

/// The function carries the annotation `@Test`.
pub open spec fn has_test_annotation(f: FunView) -> bool {
    exists|i: int| 0 <= i < f.annotations.len() && #[trigger] f.annotations[i].name == "Test"@
}

/// `entry` reports the end of the test `name` whose body had the outcome `result`.
pub open spec fn test_reported(entry: Interaction, name: Seq<char>, result: Result<RuntimeView, Failure>, file: SourceFile) -> bool {
    match result {
        Ok(_) => entry == Interaction::Event(TestEventView::Success(name)),
        Err(fl) => entry matches Interaction::Event(TestEventView::Failed(n, e)) && n == name && failure_matches(e, fl, file),
    }
}

/// Running the tests among the statements from index `i` on: each function definition
/// annotated `@Test`, in order, is reported started, its body is evaluated in the innermost
/// environment, and it is reported a success or a failure. Other statements are skipped.
pub open spec fn run_tests_from(m: Machine, stmts: Seq<StmtNodeView>, i: int, file: SourceFile, t: Seq<Interaction>) -> Run<()>
    decreases stmts.len() - i,
{
    if 0 <= i < stmts.len() {
        match stmts[i].stmt {
            StmtView::FunctionDefinition(f, _) => if has_test_annotation(f) {
                let name = f.name.name;
                if t.len() > 0 && t[0] == Interaction::Event(TestEventView::Started(name)) {
                    let b = eval_stmts(m, f.statements, 0, unit_view(), MAX_CALL_DEPTH as nat, t.skip(1));
                    let k: nat = 1 + b.used;
                    if !stuck(b) && t.len() > k && test_reported(t[k as int], name, b.result, file) {
                        let r = run_tests_from(b.machine, stmts, i + 1, file, t.skip((k + 1) as int));
                        Run { result: r.result, machine: r.machine, used: k + 1 + r.used }
                    } else {
                        fail(Failure::Stuck, b.machine, k)
                    }
                } else {
                    fail(Failure::Stuck, m, 0)
                }
            } else {
                run_tests_from(m, stmts, i + 1, file, t)
            },
            _ => run_tests_from(m, stmts, i + 1, file, t),
        }
    } else {
        Run { result: Ok(()), machine: m, used: 0 }
    }
}

// ---- laws of evaluation ----

proof fn lemma_take_shorter(t1: Seq<Interaction>, t2: Seq<Interaction>, n: int, k: int)
    requires
        0 <= k <= n,
        n <= t1.len(),
        n <= t2.len(),
        t1.take(n) == t2.take(n),
    ensures
        t1.take(k) == t2.take(k),
{
    assert(t1.take(k) =~= t1.take(n).take(k));
    assert(t2.take(k) =~= t2.take(n).take(k));
}

proof fn lemma_take_after(t1: Seq<Interaction>, t2: Seq<Interaction>, n: int, k: int)
    requires
        0 <= n,
        0 <= k,
        n + k <= t1.len(),
        n + k <= t2.len(),
        t1.take(n + k) == t2.take(n + k),
    ensures
        t1.skip(n).take(k) == t2.skip(n).take(k),
{
    assert(t1.skip(n).take(k) =~= t1.take(n + k).skip(n));
    assert(t2.skip(n).take(k) =~= t2.take(n + k).skip(n));
}

/// Evaluation reads no further into the trace than the entries it consumes: on any trace
/// that starts with the same entries it runs the same way.
pub proof fn lemma_expr_frame(m: Machine, e: ExprView, depth: nat, t1: Seq<Interaction>, t2: Seq<Interaction>)
    requires
        !stuck(eval_expr(m, e, depth, t1)),
        eval_expr(m, e, depth, t1).used <= t1.len(),
        eval_expr(m, e, depth, t1).used <= t2.len(),
        t1.take(eval_expr(m, e, depth, t1).used as int) == t2.take(eval_expr(m, e, depth, t1).used as int),
    ensures
        eval_expr(m, e, depth, t2) == eval_expr(m, e, depth, t1),
    decreases depth, expr_size(e),
{
    let n = eval_expr(m, e, depth, t1).used as int;
    match e {
        ExprView::Literal(_) => {},
        ExprView::VarUse(_) => {},
        ExprView::Binary(left, op, right) => {
            let a = eval_expr(m, left.expr, depth, t1);
            lemma_take_shorter(t1, t2, n, a.used as int);
            lemma_expr_frame(m, left.expr, depth, t1, t2);
            if a.result is Ok {
                let b = eval_expr(a.machine, right.expr, depth, t1.skip(a.used as int));
                lemma_take_shorter(t1, t2, n, (a.used + b.used) as int);
                lemma_take_after(t1, t2, a.used as int, b.used as int);
                lemma_expr_frame(a.machine, right.expr, depth, t1.skip(a.used as int), t2.skip(a.used as int));
            }
        },
        ExprView::Call(callee, args) => {
            let a = eval_args(m, args, 0, depth, t1);
            lemma_take_shorter(t1, t2, n, a.used as int);
            lemma_args_frame(m, args, 0, depth, t1, t2);
            if a.result is Ok {
                let c = eval_expr(a.machine, callee.expr, depth, t1.skip(a.used as int));
                lemma_take_shorter(t1, t2, n, (a.used + c.used) as int);
                lemma_take_after(t1, t2, a.used as int, c.used as int);
                lemma_expr_frame(a.machine, callee.expr, depth, t1.skip(a.used as int), t2.skip(a.used as int));
                let k = a.used + c.used;
                if c.result is Ok {
                    match c.result->Ok_0 {
                        RuntimeView::Native(name, index) => {
                            if index < c.machine.natives.len() && n == k + 1 {
                                assert(t1.skip(k as int)[0] == t1.take(n)[k as int]);
                                assert(t2.skip(k as int)[0] == t2.take(n)[k as int]);
                            }
                        },
                        RuntimeView::Coded(f, env) => {
                            if depth > 0 {
                                let b = eval_stmts(
                                    enter(c.machine, env),
                                    f.statements,
                                    0,
                                    unit_view(),
                                    (depth - 1) as nat,
                                    t1.skip(k as int),
                                );
                                lemma_take_shorter(t1, t2, n, (k + b.used) as int);
                                lemma_take_after(t1, t2, k as int, b.used as int);
                                lemma_stmts_frame(
                                    enter(c.machine, env),
                                    f.statements,
                                    0,
                                    unit_view(),
                                    (depth - 1) as nat,
                                    t1.skip(k as int),
                                    t2.skip(k as int),
                                );
                            }
                        },
                        RuntimeView::Primitive(_) => {},
                    }
                }
            }
        },
    }
}

/// The trace-frame law for arguments.
pub proof fn lemma_args_frame(
    m: Machine,
    args: Seq<ExprNodeView>,
    i: int,
    depth: nat,
    t1: Seq<Interaction>,
    t2: Seq<Interaction>,
)
    requires
        !stuck(eval_args(m, args, i, depth, t1)),
        eval_args(m, args, i, depth, t1).used <= t1.len(),
        eval_args(m, args, i, depth, t1).used <= t2.len(),
        t1.take(eval_args(m, args, i, depth, t1).used as int) == t2.take(
            eval_args(m, args, i, depth, t1).used as int,
        ),
    ensures
        eval_args(m, args, i, depth, t2) == eval_args(m, args, i, depth, t1),
    decreases depth, args_size(args, i),
{
    let n = eval_args(m, args, i, depth, t1).used as int;
    if 0 <= i < args.len() {
        let a = eval_expr(m, args[i].expr, depth, t1);
        lemma_take_shorter(t1, t2, n, a.used as int);
        lemma_expr_frame(m, args[i].expr, depth, t1, t2);
        if a.result is Ok {
            let r = eval_args(a.machine, args, i + 1, depth, t1.skip(a.used as int));
            lemma_take_shorter(t1, t2, n, (a.used + r.used) as int);
            lemma_take_after(t1, t2, a.used as int, r.used as int);
            lemma_args_frame(a.machine, args, i + 1, depth, t1.skip(a.used as int), t2.skip(a.used as int));
        }
    }
}

/// The trace-frame law for a statement.
pub proof fn lemma_stmt_frame(m: Machine, s: StmtView, depth: nat, t1: Seq<Interaction>, t2: Seq<Interaction>)
    requires
        !stuck(eval_stmt(m, s, depth, t1)),
        eval_stmt(m, s, depth, t1).used <= t1.len(),
        eval_stmt(m, s, depth, t1).used <= t2.len(),
        t1.take(eval_stmt(m, s, depth, t1).used as int) == t2.take(eval_stmt(m, s, depth, t1).used as int),
    ensures
        eval_stmt(m, s, depth, t2) == eval_stmt(m, s, depth, t1),
    decreases depth, stmt_size(s),
{
    if let StmtView::Expression(e) = s {
        lemma_expr_frame(m, e.expr, depth, t1, t2);
    }
}

/// The trace-frame law for statements.
pub proof fn lemma_stmts_frame(
    m: Machine,
    stmts: Seq<StmtNodeView>,
    i: int,
    last: RuntimeView,
    depth: nat,
    t1: Seq<Interaction>,
    t2: Seq<Interaction>,
)
    requires
        !stuck(eval_stmts(m, stmts, i, last, depth, t1)),
        eval_stmts(m, stmts, i, last, depth, t1).used <= t1.len(),
        eval_stmts(m, stmts, i, last, depth, t1).used <= t2.len(),
        t1.take(eval_stmts(m, stmts, i, last, depth, t1).used as int) == t2.take(
            eval_stmts(m, stmts, i, last, depth, t1).used as int,
        ),
    ensures
        eval_stmts(m, stmts, i, last, depth, t2) == eval_stmts(m, stmts, i, last, depth, t1),
    decreases depth, stmts_size(stmts, i),
{
    let n = eval_stmts(m, stmts, i, last, depth, t1).used as int;
    if 0 <= i < stmts.len() {
        let s = eval_stmt(m, stmts[i].stmt, depth, t1);
        lemma_take_shorter(t1, t2, n, s.used as int);
        lemma_stmt_frame(m, stmts[i].stmt, depth, t1, t2);
        if s.result is Ok {
            let r = eval_stmts(s.machine, stmts, i + 1, s.result->Ok_0, depth, t1.skip(s.used as int));
            lemma_take_shorter(t1, t2, n, (s.used + r.used) as int);
            lemma_take_after(t1, t2, s.used as int, r.used as int);
            lemma_stmts_frame(
                s.machine,
                stmts,
                i + 1,
                s.result->Ok_0,
                depth,
                t1.skip(s.used as int),
                t2.skip(s.used as int),
            );
        }
    }
}

/// A successful evaluation leaves the stack of environments as it found it.
pub proof fn lemma_expr_keeps_stack(m: Machine, e: ExprView, depth: nat, t: Seq<Interaction>)
    ensures
        eval_expr(m, e, depth, t).result is Ok ==> eval_expr(m, e, depth, t).machine.stack == m.stack,
    decreases depth, expr_size(e),
{
    match e {
        ExprView::Literal(_) => {},
        ExprView::VarUse(_) => {},
        ExprView::Binary(left, op, right) => {
            let a = eval_expr(m, left.expr, depth, t);
            lemma_expr_keeps_stack(m, left.expr, depth, t);
            lemma_expr_keeps_stack(a.machine, right.expr, depth, t.skip(a.used as int));
        },
        ExprView::Call(callee, args) => {
            let a = eval_args(m, args, 0, depth, t);
            lemma_args_keep_stack(m, args, 0, depth, t);
            let c = eval_expr(a.machine, callee.expr, depth, t.skip(a.used as int));
            lemma_expr_keeps_stack(a.machine, callee.expr, depth, t.skip(a.used as int));
            let k = a.used + c.used;
            if c.result is Ok {
                if let RuntimeView::Coded(f, env) = c.result->Ok_0 {
                    if depth > 0 {
                        lemma_stmts_keep_stack(
                            enter(c.machine, env),
                            f.statements,
                            0,
                            unit_view(),
                            (depth - 1) as nat,
                            t.skip(k as int),
                        );
                        let b = eval_stmts(
                            enter(c.machine, env),
                            f.statements,
                            0,
                            unit_view(),
                            (depth - 1) as nat,
                            t.skip(k as int),
                        );
                        if b.result is Ok {
                            assert(b.machine.stack.drop_last() =~= c.machine.stack);
                        }
                    }
                }
            }
        },
    }
}

/// The stack law for arguments.
pub proof fn lemma_args_keep_stack(m: Machine, args: Seq<ExprNodeView>, i: int, depth: nat, t: Seq<Interaction>)
    ensures
        eval_args(m, args, i, depth, t).result is Ok ==> eval_args(m, args, i, depth, t).machine.stack == m.stack,
    decreases depth, args_size(args, i),
{
    if 0 <= i < args.len() {
        let a = eval_expr(m, args[i].expr, depth, t);
        lemma_expr_keeps_stack(m, args[i].expr, depth, t);
        lemma_args_keep_stack(a.machine, args, i + 1, depth, t.skip(a.used as int));
    }
}

/// The stack law for statements.
pub proof fn lemma_stmts_keep_stack(
    m: Machine,
    stmts: Seq<StmtNodeView>,
    i: int,
    last: RuntimeView,
    depth: nat,
    t: Seq<Interaction>,
)
    ensures
        eval_stmts(m, stmts, i, last, depth, t).result is Ok ==> eval_stmts(m, stmts, i, last, depth, t).machine.stack
            == m.stack,
    decreases depth, stmts_size(stmts, i),
{
    if 0 <= i < stmts.len() {
        let s = eval_stmt(m, stmts[i].stmt, depth, t);
        if let StmtView::Expression(e) = stmts[i].stmt {
            lemma_expr_keeps_stack(m, e.expr, depth, t);
        }
        if s.result is Ok {
            lemma_stmts_keep_stack(s.machine, stmts, i + 1, s.result->Ok_0, depth, t.skip(s.used as int));
        }
    }
}

/// Evaluating a function definition gives the function, closed over the innermost
/// environment, consumes nothing of the trace, and afterwards the function's name reads,
/// from that environment, as the function.
pub proof fn law_definition_binds(m: Machine, f: FunView, span: SourceSpan, depth: nat, t: Seq<Interaction>)
    requires
        current_env(m) < m.scopes.len(),
    ensures
        ({
            let r = eval_stmt(m, StmtView::FunctionDefinition(f, span), depth, t);
            &&& r.result == Ok::<RuntimeView, Failure>(RuntimeView::Coded(f, current_env(m)))
            &&& r.used == 0
            &&& lookup(r.machine.scopes, current_env(r.machine), f.name.name) == Some(
                RuntimeView::Coded(f, current_env(m)),
            )
        }),
{
    crate::environment::law_get_after_add(m.scopes, current_env(m), f.name.name, RuntimeView::Coded(f, current_env(m)));
}

/// `after` keeps what `before` set up: no scope removed, no parent changed, the same
/// native functions.
pub open spec fn keeps_structure(before: Machine, after: Machine) -> bool {
    &&& before.scopes.len() <= after.scopes.len()
    &&& forall|i: int| 0 <= i < before.scopes.len() ==> #[trigger] after.scopes[i].parent == before.scopes[i].parent
    &&& after.natives == before.natives
}

proof fn lemma_keeps_structure_trans(a: Machine, b: Machine, c: Machine)
    requires
        keeps_structure(a, b),
        keeps_structure(b, c),
    ensures
        keeps_structure(a, c),
{
    assert forall|i: int| 0 <= i < a.scopes.len() implies #[trigger] c.scopes[i].parent == a.scopes[i].parent by {
        assert(b.scopes[i].parent == a.scopes[i].parent);
    }
}

/// Evaluation only ever adds: scopes and bindings come, no scope goes or changes its
/// parent, and the native functions stay as they are.
pub proof fn law_expr_keeps_structure(m: Machine, e: ExprView, depth: nat, t: Seq<Interaction>)
    ensures
        keeps_structure(m, eval_expr(m, e, depth, t).machine),
    decreases depth, expr_size(e),
{
    match e {
        ExprView::Literal(_) => {},
        ExprView::VarUse(_) => {},
        ExprView::Binary(left, op, right) => {
            let a = eval_expr(m, left.expr, depth, t);
            law_expr_keeps_structure(m, left.expr, depth, t);
            if a.result is Ok {
                law_expr_keeps_structure(a.machine, right.expr, depth, t.skip(a.used as int));
                lemma_keeps_structure_trans(m, a.machine, eval_expr(a.machine, right.expr, depth, t.skip(a.used as int)).machine);
            }
        },
        ExprView::Call(callee, args) => {
            let a = eval_args(m, args, 0, depth, t);
            law_args_keep_structure(m, args, 0, depth, t);
            if a.result is Ok {
                let c = eval_expr(a.machine, callee.expr, depth, t.skip(a.used as int));
                law_expr_keeps_structure(a.machine, callee.expr, depth, t.skip(a.used as int));
                lemma_keeps_structure_trans(m, a.machine, c.machine);
                let k = a.used + c.used;
                if c.result is Ok {
                    if let RuntimeView::Coded(f, env) = c.result->Ok_0 {
                        if depth > 0 {
                            let entered = enter(c.machine, env);
                            assert(keeps_structure(c.machine, entered));
                            law_stmts_keep_structure(entered, f.statements, 0, unit_view(), (depth - 1) as nat, t.skip(k as int));
                            let b = eval_stmts(entered, f.statements, 0, unit_view(), (depth - 1) as nat, t.skip(k as int));
                            lemma_keeps_structure_trans(c.machine, entered, b.machine);
                            lemma_keeps_structure_trans(m, c.machine, b.machine);
                            assert(keeps_structure(b.machine, leave(b.machine)));
                            lemma_keeps_structure_trans(m, b.machine, leave(b.machine));
                        }
                    }
                }
            }
        },
    }
}

/// The structure law for arguments.
pub proof fn law_args_keep_structure(m: Machine, args: Seq<ExprNodeView>, i: int, depth: nat, t: Seq<Interaction>)
    ensures
        keeps_structure(m, eval_args(m, args, i, depth, t).machine),
    decreases depth, args_size(args, i),
{
    if 0 <= i < args.len() {
        let a = eval_expr(m, args[i].expr, depth, t);
        law_expr_keeps_structure(m, args[i].expr, depth, t);
        if a.result is Ok {
            law_args_keep_structure(a.machine, args, i + 1, depth, t.skip(a.used as int));
            lemma_keeps_structure_trans(m, a.machine, eval_args(a.machine, args, i + 1, depth, t.skip(a.used as int)).machine);
        }
    }
}

/// The structure law for statements.
pub proof fn law_stmts_keep_structure(
    m: Machine,
    stmts: Seq<StmtNodeView>,
    i: int,
    last: RuntimeView,
    depth: nat,
    t: Seq<Interaction>,
)
    ensures
        keeps_structure(m, eval_stmts(m, stmts, i, last, depth, t).machine),
    decreases depth, stmts_size(stmts, i),
{
    if 0 <= i < stmts.len() {
        let s = eval_stmt(m, stmts[i].stmt, depth, t);
        if let StmtView::Expression(e) = stmts[i].stmt {
            law_expr_keeps_structure(m, e.expr, depth, t);
        }
        if s.result is Ok {
            law_stmts_keep_structure(s.machine, stmts, i + 1, s.result->Ok_0, depth, t.skip(s.used as int));
            lemma_keeps_structure_trans(
                m,
                s.machine,
                eval_stmts(s.machine, stmts, i + 1, s.result->Ok_0, depth, t.skip(s.used as int)).machine,
            );
        }
    }
}

// ---- what evaluation means ----

/// Integer arithmetic and comparison: when the two operands evaluate to the integers `a` and
/// `b`, `a == b` evaluates to true exactly when the integers are equal, `a + b` to their sum
/// and `a * b` to their product, each of the latter two failing with the overflow error
/// exactly when the result lies outside the 64-bit range.
pub proof fn law_integer_operators(
    m: Machine,
    left: ExprNodeView,
    right: ExprNodeView,
    a: i64,
    b: i64,
    depth: nat,
    t: Seq<Interaction>,
)
    requires
        eval_expr(m, left.expr, depth, t).result == Ok::<RuntimeView, Failure>(RuntimeView::Primitive(ValueView::Int(a))),
        eval_expr(
            eval_expr(m, left.expr, depth, t).machine,
            right.expr,
            depth,
            t.skip(eval_expr(m, left.expr, depth, t).used as int),
        ).result == Ok::<RuntimeView, Failure>(RuntimeView::Primitive(ValueView::Int(b))),
    ensures
        eval_expr(m, ExprView::Binary(Box::new(left), BinaryOperator::Equals, Box::new(right)), depth, t).result
            == Ok::<RuntimeView, Failure>(RuntimeView::Primitive(ValueView::Boolean(a == b))),
        (a == b) == (eval_expr(m, ExprView::Binary(Box::new(left), BinaryOperator::Equals, Box::new(right)), depth, t).result
            == Ok::<RuntimeView, Failure>(RuntimeView::Primitive(ValueView::Boolean(true)))),
        i64::MIN <= a + b <= i64::MAX ==> (eval_expr(
            m,
            ExprView::Binary(Box::new(left), BinaryOperator::Add, Box::new(right)),
            depth,
            t,
        ).result matches Ok(RuntimeView::Primitive(ValueView::Int(z))) && z == a + b),
        !(i64::MIN <= a + b <= i64::MAX) ==> eval_expr(
            m,
            ExprView::Binary(Box::new(left), BinaryOperator::Add, Box::new(right)),
            depth,
            t,
        ).result == Err::<RuntimeView, Failure>(Failure::Message("Integer overflow in binary expression"@)),
        i64::MIN <= a * b <= i64::MAX ==> (eval_expr(
            m,
            ExprView::Binary(Box::new(left), BinaryOperator::Multiply, Box::new(right)),
            depth,
            t,
        ).result matches Ok(RuntimeView::Primitive(ValueView::Int(z))) && z == a * b),
        !(i64::MIN <= a * b <= i64::MAX) ==> eval_expr(
            m,
            ExprView::Binary(Box::new(left), BinaryOperator::Multiply, Box::new(right)),
            depth,
            t,
        ).result == Err::<RuntimeView, Failure>(Failure::Message("Integer overflow in binary expression"@)),
{
}

/// Calls are lexically scoped: calling, without arguments, a name bound to a coded function
/// runs the function's body in a new scope whose parent is the environment the function was
/// defined in, entered as the innermost one. Whatever the caller's innermost environment
/// is, every name the body does not bind itself reads as it reads in that defining
/// environment.
pub proof fn law_call_uses_defining_environment(
    m: Machine,
    callee: ExprNodeView,
    f: FunView,
    env: nat,
    depth: nat,
    t: Seq<Interaction>,
    name: Seq<char>,
)
    requires
        callee.expr matches ExprView::VarUse(id) && lookup(m.scopes, current_env(m), id.name) == Some(
            RuntimeView::Coded(f, env),
        ),
        depth > 0,
    ensures
        ({
            let inner = Machine {
                scopes: m.scopes.push(ScopeView { parent: Some(env), bindings: Map::empty() }),
                stack: m.stack.push(m.scopes.len()),
                natives: m.natives,
            };
            let body = eval_stmts(inner, f.statements, 0, unit_view(), (depth - 1) as nat, t);
            let call = eval_expr(m, ExprView::Call(Box::new(callee), seq![]), depth, t);
            &&& call.result == body.result
            &&& call.used == body.used
            &&& lookup(inner.scopes, inner.stack.last(), name) == lookup(m.scopes, env, name)
        }),
{
    crate::environment::law_child_sees_parent(m.scopes, env, name);
    let inner = Machine {
        scopes: m.scopes.push(ScopeView { parent: Some(env), bindings: Map::empty() }),
        stack: m.stack.push(m.scopes.len()),
        natives: m.natives,
    };
    assert(inner == enter(m, env));
    assert(t.skip(0) =~= t);
    let a = eval_args(m, seq![], 0, depth, t);
    assert(a.machine == m && a.used == 0 && a.result == Ok::<Seq<RuntimeView>, Failure>(seq![]));
    let c = eval_expr(m, callee.expr, depth, t);
    assert(c.machine == m && c.used == 0 && c.result == Ok::<RuntimeView, Failure>(RuntimeView::Coded(f, env)));
    let body = eval_stmts(inner, f.statements, 0, unit_view(), (depth - 1) as nat, t);
    let call = eval_expr(m, ExprView::Call(Box::new(callee), seq![]), depth, t);
    assert(call.result == body.result);
    assert(call.used == body.used);
    assert(inner.stack.last() == m.scopes.len());
}

// ---- evaluation consumes native calls only ----

proof fn lemma_natives_prefix_join(t: Seq<Interaction>, a: int, b: int)
    requires
        0 <= a,
        0 <= b,
        a + b <= t.len(),
        only_natives(t.take(a)),
        only_natives(t.skip(a).take(b)),
    ensures
        only_natives(t.take(a + b)),
{
    assert forall|i: int| 0 <= i < t.take(a + b).len() implies #[trigger] t.take(a + b)[i] is Native by {
        if i < a {
            assert(t.take(a + b)[i] == t.take(a)[i]);
        } else {
            assert(t.take(a + b)[i] == t.skip(a).take(b)[i - a]);
        }
    }
}

/// Evaluating an expression consumes at most the trace it is given, and native calls only.
pub proof fn lemma_expr_natives(m: Machine, e: ExprView, depth: nat, t: Seq<Interaction>)
    ensures
        eval_expr(m, e, depth, t).used <= t.len(),
        only_natives(t.take(eval_expr(m, e, depth, t).used as int)),
    decreases depth, expr_size(e),
{
    match e {
        ExprView::Literal(_) => {},
        ExprView::VarUse(_) => {},
        ExprView::Binary(left, op, right) => {
            let a = eval_expr(m, left.expr, depth, t);
            lemma_expr_natives(m, left.expr, depth, t);
            if a.result is Ok {
                let b = eval_expr(a.machine, right.expr, depth, t.skip(a.used as int));
                lemma_expr_natives(a.machine, right.expr, depth, t.skip(a.used as int));
                lemma_natives_prefix_join(t, a.used as int, b.used as int);
            }
        },
        ExprView::Call(callee, args) => {
            let a = eval_args(m, args, 0, depth, t);
            lemma_args_natives(m, args, 0, depth, t);
            if a.result is Ok {
                let c = eval_expr(a.machine, callee.expr, depth, t.skip(a.used as int));
                lemma_expr_natives(a.machine, callee.expr, depth, t.skip(a.used as int));
                lemma_natives_prefix_join(t, a.used as int, c.used as int);
                let k = a.used + c.used;
                if c.result is Ok {
                    match c.result->Ok_0 {
                        RuntimeView::Native(name, index) => {
                            let rest = t.skip(k as int);
                            if index < c.machine.natives.len() && native_call_next(
                                rest,
                                index,
                                c.machine.natives[index as int],
                                a.result->Ok_0,
                                spans_of(args),
                            ) {
                                assert(rest.take(1)[0] == rest[0]);
                                lemma_natives_prefix_join(t, k as int, 1);
                            }
                        },
                        RuntimeView::Coded(f, env) => {
                            if depth > 0 {
                                let b = eval_stmts(
                                    enter(c.machine, env),
                                    f.statements,
                                    0,
                                    unit_view(),
                                    (depth - 1) as nat,
                                    t.skip(k as int),
                                );
                                lemma_stmts_natives(
                                    enter(c.machine, env),
                                    f.statements,
                                    0,
                                    unit_view(),
                                    (depth - 1) as nat,
                                    t.skip(k as int),
                                );
                                lemma_natives_prefix_join(t, k as int, b.used as int);
                            }
                        },
                        RuntimeView::Primitive(_) => {},
                    }
                }
            }
        },
    }
}

/// Evaluating arguments consumes at most the trace it is given, and native calls only.
pub proof fn lemma_args_natives(m: Machine, args: Seq<ExprNodeView>, i: int, depth: nat, t: Seq<Interaction>)
    ensures
        eval_args(m, args, i, depth, t).used <= t.len(),
        only_natives(t.take(eval_args(m, args, i, depth, t).used as int)),
    decreases depth, args_size(args, i),
{
    if 0 <= i < args.len() {
        let a = eval_expr(m, args[i].expr, depth, t);
        lemma_expr_natives(m, args[i].expr, depth, t);
        if a.result is Ok {
            let r = eval_args(a.machine, args, i + 1, depth, t.skip(a.used as int));
            lemma_args_natives(a.machine, args, i + 1, depth, t.skip(a.used as int));
            lemma_natives_prefix_join(t, a.used as int, r.used as int);
        }
    }
}

/// Evaluating a statement consumes at most the trace it is given, and native calls only.
pub proof fn lemma_stmt_natives(m: Machine, st: StmtView, depth: nat, t: Seq<Interaction>)
    ensures
        eval_stmt(m, st, depth, t).used <= t.len(),
        only_natives(t.take(eval_stmt(m, st, depth, t).used as int)),
    decreases depth, stmt_size(st),
{
    match st {
        StmtView::Expression(e) => lemma_expr_natives(m, e.expr, depth, t),
        StmtView::FunctionDefinition(..) => {},
    }
}

/// Evaluating statements consumes at most the trace it is given, and native calls only.
pub proof fn lemma_stmts_natives(
    m: Machine,
    stmts: Seq<StmtNodeView>,
    i: int,
    last: RuntimeView,
    depth: nat,
    t: Seq<Interaction>,
)
    ensures
        eval_stmts(m, stmts, i, last, depth, t).used <= t.len(),
        only_natives(t.take(eval_stmts(m, stmts, i, last, depth, t).used as int)),
    decreases depth, stmts_size(stmts, i),
{
    if 0 <= i < stmts.len() {
        let sr = eval_stmt(m, stmts[i].stmt, depth, t);
        lemma_stmt_natives(m, stmts[i].stmt, depth, t);
        if let Ok(v) = sr.result {
            let r = eval_stmts(sr.machine, stmts, i + 1, v, depth, t.skip(sr.used as int));
            lemma_stmts_natives(sr.machine, stmts, i + 1, v, depth, t.skip(sr.used as int));
            lemma_natives_prefix_join(t, sr.used as int, r.used as int);
        }
    }
}

// ---- every test is reported ----

/// The names of the function definitions annotated `@Test` among the statements from
/// index `i` on, in order.
pub open spec fn test_names(stmts: Seq<StmtNodeView>, i: int) -> Seq<Seq<char>>
    decreases stmts.len() - i,
{
    if 0 <= i < stmts.len() {
        let rest = test_names(stmts, i + 1);
        match stmts[i].stmt {
            StmtView::FunctionDefinition(f, _) => if has_test_annotation(f) {
                seq![f.name.name] + rest
            } else {
                rest
            },
            _ => rest,
        }
    } else {
        seq![]
    }
}

/// The reports are, for each of the tests `names` in order, that it started and then that
/// it succeeded or failed.
pub open spec fn reports_each_test(items: Seq<TestEventView>, names: Seq<Seq<char>>) -> bool {
    &&& items.len() == 2 * names.len()
    &&& forall|j: int|
        0 <= j < names.len() ==> {
            &&& items[2 * j] == TestEventView::Started(#[trigger] names[j])
            &&& (items[2 * j + 1] == TestEventView::Success(names[j]) || (items[2 * j + 1] matches TestEventView::Failed(
                n,
                _,
            ) && n == names[j]))
        }
}

/// Every test runs and is reported: a run of the tests among the statements from index `i`
/// on reports, for each function definition annotated `@Test`, in order and whatever the
/// outcome of the tests before it, that it started and then that it succeeded or failed;
/// nothing else is reported.
pub proof fn law_every_test_reported(m: Machine, stmts: Seq<StmtNodeView>, i: int, file: SourceFile, t: Seq<Interaction>)
    ensures
        run_tests_from(m, stmts, i, file, t).result is Ok ==> {
            &&& run_tests_from(m, stmts, i, file, t).used <= t.len()
            &&& reports_each_test(
                event_items(t.take(run_tests_from(m, stmts, i, file, t).used as int)),
                test_names(stmts, i),
            )
        },
    decreases stmts.len() - i,
{
    let run = run_tests_from(m, stmts, i, file, t);
    if 0 <= i < stmts.len() {
        let rest_names = test_names(stmts, i + 1);
        match stmts[i].stmt {
            StmtView::FunctionDefinition(f, _) => if has_test_annotation(f) {
                let name = f.name.name;
                if t.len() > 0 && t[0] == Interaction::Event(TestEventView::Started(name)) {
                    let b = eval_stmts(m, f.statements, 0, unit_view(), MAX_CALL_DEPTH as nat, t.skip(1));
                    lemma_stmts_natives(m, f.statements, 0, unit_view(), MAX_CALL_DEPTH as nat, t.skip(1));
                    let k: nat = 1 + b.used;
                    if !stuck(b) && t.len() > k && test_reported(t[k as int], name, b.result, file) {
                        let r = run_tests_from(b.machine, stmts, i + 1, file, t.skip((k + 1) as int));
                        law_every_test_reported(b.machine, stmts, i + 1, file, t.skip((k + 1) as int));
                        if r.result is Ok {
                            let first = seq![t[0]];
                            let body = t.skip(1).take(b.used as int);
                            let report = seq![t[k as int]];
                            let later = t.skip((k + 1) as int).take(r.used as int);
                            assert(t.take(run.used as int) =~= first + body + report + later);
                            lemma_event_items_natives(body);
                            lemma_event_items_concat(first, body);
                            lemma_event_items_concat(first + body, report);
                            lemma_event_items_concat(first + body + report, later);
                            assert(first.drop_last() =~= Seq::<Interaction>::empty());
                            assert(report.drop_last() =~= Seq::<Interaction>::empty());
                            assert(event_items(Seq::<Interaction>::empty()) == Seq::<TestEventView>::empty());
                            let report_item = match t[k as int] {
                                Interaction::Event(v) => v,
                                _ => TestEventView::Started(name),
                            };
                            assert(event_items(first) =~= seq![TestEventView::Started(name)]);
                            assert(event_items(report) =~= seq![report_item]);
                            let rest_items = event_items(later);
                            let items = event_items(t.take(run.used as int));
                            assert(items =~= seq![TestEventView::Started(name), report_item] + rest_items);
                            let names = test_names(stmts, i);
                            assert(names == seq![name] + rest_names);
                            assert forall|j: int| 0 <= j < names.len() implies {
                                &&& items[2 * j] == TestEventView::Started(#[trigger] names[j])
                                &&& (items[2 * j + 1] == TestEventView::Success(names[j]) || (items[2 * j
                                    + 1] matches TestEventView::Failed(n, _) && n == names[j]))
                            } by {
                                if j > 0 {
                                    assert(names[j] == rest_names[j - 1]);
                                    assert(items[2 * j] == rest_items[2 * (j - 1)]);
                                    assert(items[2 * j + 1] == rest_items[2 * (j - 1) + 1]);
                                }
                            }
                        }
                    }
                }
            } else {
                law_every_test_reported(m, stmts, i + 1, file, t);
            },
            _ => {
                law_every_test_reported(m, stmts, i + 1, file, t);
            },
        }
    } else {
        assert(t.take(0) =~= Seq::<Interaction>::empty());
    }
}

/// A test's report follows its body: when a run of the tests reaches a function definition
/// annotated `@Test`, it reports it started, evaluates its body in the innermost
/// environment, and then reports a success exactly when the body ran without error, and
/// otherwise a failure carrying the body's error.
pub proof fn law_test_outcome_reported(m: Machine, stmts: Seq<StmtNodeView>, i: int, file: SourceFile, t: Seq<Interaction>)
    requires
        0 <= i < stmts.len(),
        stmts[i].stmt matches StmtView::FunctionDefinition(f, _) && has_test_annotation(f),
        run_tests_from(m, stmts, i, file, t).result is Ok,
    ensures
        ({
            let f = stmts[i].stmt->FunctionDefinition_0;
            let body = eval_stmts(m, f.statements, 0, unit_view(), MAX_CALL_DEPTH as nat, t.skip(1));
            &&& t.len() > 1 + body.used
            &&& t[0] == Interaction::Event(TestEventView::Started(f.name.name))
            &&& (t[(1 + body.used) as int] == Interaction::Event(TestEventView::Success(f.name.name))) == (body.result is Ok)
            &&& body.result matches Err(fl) ==> (t[(1 + body.used) as int] matches Interaction::Event(
                TestEventView::Failed(n, e),
            ) && n == f.name.name && failure_matches(e, fl, file))
        }),
{
}

} // verus!
