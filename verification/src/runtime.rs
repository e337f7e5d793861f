//! The values a running script computes with: primitive values and functions.

use crate::ast::{fun_view, FunView, FunctionDefinition};
use crate::environment::Environment;
use crate::message::EffyError;
use crate::shared::share;
use crate::span::SourceSpan;
use crate::text::push_str;
use crate::value::{value_text, Value, ValueView};
use std::sync::Arc;
use vstd::prelude::*;

verus! {

/// What a native function is called with: the values of the arguments and where each
/// argument expression stands in the source.
pub struct NativeFunctionContext {
    pub arguments: Vec<InterpreterValue>,
    pub argument_spans: Vec<SourceSpan>,
}

impl NativeFunctionContext {
    pub fn arguments(&self) -> (r: &Vec<InterpreterValue>)
        ensures
            *r == self.arguments,
    {
        &self.arguments
    }

    pub fn argument_spans(&self) -> (r: &Vec<SourceSpan>)
        ensures
            *r == self.argument_spans,
    {
        &self.argument_spans
    }
}

/// A function that the host program provides to scripts.
pub trait NativeFunctionTrait {
    /// Whether the function, handed `context`, may give back `result`. A verified function
    /// states this (as `ClosureFunction` does); for one written in plain Rust it allows
    /// every result.
    closed spec fn invoked(&self, context: NativeFunctionContext, result: Result<InterpreterValue, EffyError>) -> bool {
        true
    }

    fn invoke(&self, context: &mut NativeFunctionContext) -> (r: Result<InterpreterValue, EffyError>)
        ensures
            self.invoked(*old(context), r),
    ;
}

/// A closure used as a host function; it must accept every context.
pub struct ClosureFunction<F: Fn(&mut NativeFunctionContext) -> Result<InterpreterValue, EffyError>> {
    function: F,
}

impl<F: Fn(&mut NativeFunctionContext) -> Result<InterpreterValue, EffyError>> ClosureFunction<F> {
    #[verifier::type_invariant]
    spec fn accepts_all(self) -> bool {
        forall|c: &mut NativeFunctionContext| call_requires(self.function, (c,))
    }

    pub fn new(function: F) -> (r: Self)
        requires
            forall|c: &mut NativeFunctionContext| call_requires(function, (c,)),
        ensures
            forall|context: NativeFunctionContext, result: Result<InterpreterValue, EffyError>|
                #[trigger] r.invoked(context, result) == exists|c: &mut NativeFunctionContext|
                    *c == context && call_ensures(function, (c,), result),
    {
        ClosureFunction { function }
    }
}

impl<F: Fn(&mut NativeFunctionContext) -> Result<InterpreterValue, EffyError>> NativeFunctionTrait for ClosureFunction<F> {
    /// The closure's own postcondition holds of the context it is handed and what it gives back.
    closed spec fn invoked(&self, context: NativeFunctionContext, result: Result<InterpreterValue, EffyError>) -> bool {
        exists|c: &mut NativeFunctionContext| *c == context && call_ensures(self.function, (c,), result)
    }

    fn invoke(&self, context: &mut NativeFunctionContext) -> (r: Result<InterpreterValue, EffyError>) {
        proof {
            use_type_invariant(self);
        }
        let r = (self.function)(context);
        r
    }
}

/// A host function, held as a trait object.
struct HostFunction {
    function: Box<dyn NativeFunctionTrait>,
}

/// `Box::new`, the box then used as a `dyn NativeFunctionTrait`. A call through the box runs
/// `f`'s own `invoke`, so what it may give back is what `f` may give back; Verus has no rule
/// of its own relating a trait object to the value it was made from, so this states it.
#[verifier::external_body]
fn box_native<F: NativeFunctionTrait + 'static>(f: F) -> (r: HostFunction)
    ensures
        forall|c: NativeFunctionContext, res: Result<InterpreterValue, EffyError>|
            #[trigger] r.function.invoked(c, res) == f.invoked(c, res),
{
    HostFunction { function: Box::new(f) }
}

/// A host function together with the name scripts know it by.
pub struct NativeFunction {
    name: String,
    function: HostFunction,
}

impl NativeFunction {
    pub closed spec fn spec_name(&self) -> Seq<char> {
        self.name@
    }

    /// Whether the host function, handed `context`, may give back `result`.
    pub closed spec fn invoked(&self, context: NativeFunctionContext, result: Result<InterpreterValue, EffyError>) -> bool {
        self.function.function.invoked(context, result)
    }

    pub fn new<F: NativeFunctionTrait + 'static>(name: &str, function: F) -> (r: Self)
        ensures
            r.spec_name() == name@,
            forall|c: NativeFunctionContext, res: Result<InterpreterValue, EffyError>|
                #[trigger] r.invoked(c, res) == function.invoked(c, res),
    {
        let ghost f = function;
        let r = NativeFunction { name: name.to_owned(), function: box_native(function) };
        assert forall|c: NativeFunctionContext, res: Result<InterpreterValue, EffyError>|
            #[trigger] r.invoked(c, res) == f.invoked(c, res) by {
            assert(r.function.function.invoked(c, res) == f.invoked(c, res));
        }
        r
    }

    pub fn name(&self) -> (r: &str)
        ensures
            r@ == self.spec_name(),
    {
        self.name.as_str()
    }

    /// Runs the host function.
    pub fn invoke(&self, context: &mut NativeFunctionContext) -> (r: Result<InterpreterValue, EffyError>)
        ensures
            self.invoked(*old(context), r),
    {
        self.function.function.invoke(context)
    }
}

/// A function defined in a script, with the environment it was defined in.
pub struct CodedFunction {
    function_definition: FunctionDefinition,
    environment: Environment,
}

impl CodedFunction {
    pub closed spec fn spec_definition(&self) -> FunctionDefinition {
        self.function_definition
    }

    pub closed spec fn spec_environment(&self) -> Environment {
        self.environment
    }

    pub fn new(function_definition: FunctionDefinition, environment: Environment) -> (r: Self)
        ensures
            r.spec_definition() == function_definition,
            r.spec_environment() == environment,
    {
        CodedFunction { function_definition, environment }
    }

    pub fn function_definition(&self) -> (r: &FunctionDefinition)
        ensures
            *r == self.spec_definition(),
    {
        &self.function_definition
    }

    pub fn environment(&self) -> (r: &Environment)
        ensures
            *r == self.spec_environment(),
    {
        &self.environment
    }
}

/// How a value refers to a native function: by its place among the native functions
/// of the interpreter, and by its name.
pub struct NativeFunctionHandle {
    index: usize,
    name: String,
}

impl NativeFunctionHandle {
    pub closed spec fn spec_index(&self) -> nat {
        self.index as nat
    }

    pub closed spec fn spec_name(&self) -> Seq<char> {
        self.name@
    }

    pub(crate) fn new(index: usize, name: &str) -> (r: Self)
        ensures
            r.spec_index() == index,
            r.spec_name() == name@,
    {
        NativeFunctionHandle { index, name: name.to_owned() }
    }

    pub fn index(&self) -> (r: usize)
        ensures
            r == self.spec_index(),
    {
        self.index
    }

    pub fn name(&self) -> (r: &str)
        ensures
            r@ == self.spec_name(),
    {
        self.name.as_str()
    }
}

impl Clone for NativeFunctionHandle {
    fn clone(&self) -> (r: Self)
        ensures
            r == *self,
    {
        NativeFunctionHandle { index: self.index, name: self.name.clone() }
    }
}

/// The kinds of values.
pub enum ValueKind {
    PrimitiveValue(Value),
    NativeFunction(NativeFunctionHandle),
    CodedFunction(Arc<CodedFunction>),
}

/// A value of a running script.
pub struct InterpreterValue {
    value_kind: ValueKind,
}

/// The mathematical form of a value: a primitive value, a native function known by its
/// name and its index, or a coded function with the index of its environment.
pub enum RuntimeView {
    Primitive(ValueView),
    Native(Seq<char>, nat),
    Coded(FunView, nat),
}

impl View for InterpreterValue {
    type V = RuntimeView;

    closed spec fn view(&self) -> RuntimeView {
        match self.value_kind {
            ValueKind::PrimitiveValue(v) => RuntimeView::Primitive(v@),
            ValueKind::NativeFunction(f) => RuntimeView::Native(f.spec_name(), f.spec_index()),
            ValueKind::CodedFunction(c) => RuntimeView::Coded(
                fun_view(c.spec_definition()),
                c.spec_environment().id(),
            ),
        }
    }
}

/// How a value is displayed.
pub open spec fn runtime_text(v: RuntimeView) -> Seq<char> {
    match v {
        RuntimeView::Primitive(p) => value_text(p),
        RuntimeView::Native(name, _) => "<native function '"@ + name + "'>"@,
        RuntimeView::Coded(f, _) => "<coded function '"@ + f.name.name + "'>"@,
    }
}

/// The unit value.
pub open spec fn unit_view() -> RuntimeView {
    RuntimeView::Primitive(ValueView::Unit)
}

impl InterpreterValue {
    pub fn unit() -> (r: Self)
        ensures
            r@ == unit_view(),
    {
        Self::primitive(Value::Unit)
    }

    pub fn primitive(value: Value) -> (r: Self)
        ensures
            r@ == RuntimeView::Primitive(value@),
    {
        InterpreterValue { value_kind: ValueKind::PrimitiveValue(value) }
    }

    pub fn integer(value: i64) -> (r: Self)
        ensures
            r@ == RuntimeView::Primitive(ValueView::Int(value)),
    {
        Self::primitive(Value::Int(value))
    }

    pub fn bool(value: bool) -> (r: Self)
        ensures
            r@ == RuntimeView::Primitive(ValueView::Boolean(value)),
    {
        Self::primitive(Value::Boolean(value))
    }

    pub fn native_function(handle: NativeFunctionHandle) -> (r: Self)
        ensures
            r@ == RuntimeView::Native(handle.spec_name(), handle.spec_index()),
    {
        InterpreterValue { value_kind: ValueKind::NativeFunction(handle) }
    }

    pub fn coded_function(function_definition: FunctionDefinition, environment: Environment) -> (r: Self)
        ensures
            r@ == RuntimeView::Coded(fun_view(function_definition), environment.id()),
    {
        InterpreterValue {
            value_kind: ValueKind::CodedFunction(Arc::new(CodedFunction::new(function_definition, environment))),
        }
    }

    pub fn value_kind(&self) -> (r: &ValueKind)
        ensures
            match *r {
                ValueKind::PrimitiveValue(v) => self@ == RuntimeView::Primitive(v@),
                ValueKind::NativeFunction(f) => self@ == RuntimeView::Native(f.spec_name(), f.spec_index()),
                ValueKind::CodedFunction(c) => self@ == RuntimeView::Coded(
                    fun_view(c.spec_definition()),
                    c.spec_environment().id(),
                ),
            },
    {
        &self.value_kind
    }

    /// The text the value is displayed as.
    pub fn to_display_string(&self) -> (r: String)
        ensures
            r@ == runtime_text(self@),
    {
        match &self.value_kind {
            ValueKind::PrimitiveValue(value) => value.to_display_string(),
            ValueKind::NativeFunction(native_function) => {
                let mut r = "<native function '".to_owned();
                push_str(&mut r, native_function.name());
                push_str(&mut r, "'>");
                proof {
                    reveal_strlit("<native function '");
                    reveal_strlit("'>");
                }
                r
            },
            ValueKind::CodedFunction(coded_function) => {
                let mut r = "<coded function '".to_owned();
                push_str(&mut r, coded_function.function_definition().name().data.name.as_str());
                push_str(&mut r, "'>");
                proof {
                    reveal_strlit("<coded function '");
                    reveal_strlit("'>");
                }
                r
            },
        }
    }
}

impl From<Value> for InterpreterValue {
    fn from(value: Value) -> (r: Self) {
        InterpreterValue { value_kind: ValueKind::PrimitiveValue(value) }
    }
}

impl vstd::std_specs::convert::FromSpecImpl<Value> for InterpreterValue {
    open spec fn obeys_from_spec() -> bool {
        true
    }

    closed spec fn from_spec(v: Value) -> Self {
        InterpreterValue { value_kind: ValueKind::PrimitiveValue(v) }
    }
}

/// A value converted from a primitive value is that primitive value.
pub proof fn lemma_from_primitive(v: Value)
    ensures
        <InterpreterValue as vstd::std_specs::convert::FromSpec<Value>>::from_spec(v)@ == RuntimeView::Primitive(
            v@,
        ),
{
}

impl Clone for ValueKind {
    fn clone(&self) -> (r: Self)
        ensures
            r == *self,
    {
        match self {
            ValueKind::PrimitiveValue(v) => ValueKind::PrimitiveValue(v.clone()),
            ValueKind::NativeFunction(f) => ValueKind::NativeFunction(f.clone()),
            ValueKind::CodedFunction(c) => ValueKind::CodedFunction(share(c)),
        }
    }
}

impl Clone for InterpreterValue {
    fn clone(&self) -> (r: Self)
        ensures
            r == *self,
    {
        InterpreterValue { value_kind: self.value_kind.clone() }
    }
}

} // verus!
