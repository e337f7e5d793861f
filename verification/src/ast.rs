//! The syntax tree of Effy scripts.

use crate::shared::share;
use crate::span::SourceSpan;
use crate::value::{Value, ValueView};
use std::sync::Arc;
use vstd::prelude::*;

verus! {

broadcast use vstd::std_specs::vec::axiom_vec_index_decreases;

/// A piece of syntax together with the bytes of the source it was read from.
pub struct AstNode<T> {
    pub data: T,
    pub span: SourceSpan,
}

impl<T> AstNode<T> {
    pub fn new(data: T, span: SourceSpan) -> (r: Self)
        ensures
            r.data == data,
            r.span == span,
    {
        AstNode { data, span }
    }
}

impl<T> std::ops::Deref for AstNode<T> {
    type Target = T;

    fn deref(&self) -> (r: &T)
        ensures
            *r == self.data,
    {
        &self.data
    }
}

/// A name.
pub struct Identifier {
    pub name: String,
}

impl Identifier {
    pub fn new(name: &str) -> (r: Self)
        ensures
            r.name@ == name@,
    {
        Identifier { name: name.to_owned() }
    }

    pub fn name(&self) -> (r: &str)
        ensures
            r@ == self.name@,
    {
        self.name.as_str()
    }
}

pub type IdentifierNode = AstNode<Identifier>;

/// The binary operators.
#[derive(Debug, Copy, Clone, PartialEq, Eq, Structural)]
pub enum BinaryOperator {
    Add,
    Subtract,
    Multiply,
    Divide,
    Power,
    Modulo,
    LessThan,
    LessThanOrEqual,
    GreaterThan,
    GreaterThanOrEqual,
    Equals,
    NotEquals,
    And,
    Or,
}

/// How an operator is written.
pub open spec fn operator_text(op: BinaryOperator) -> Seq<char> {
    match op {
        BinaryOperator::Add => seq!['+'],
        BinaryOperator::Subtract => seq!['-'],
        BinaryOperator::Multiply => seq!['*'],
        BinaryOperator::Divide => seq!['/'],
        BinaryOperator::Power => seq!['^'],
        BinaryOperator::Modulo => seq!['%'],
        BinaryOperator::LessThan => seq!['<'],
        BinaryOperator::LessThanOrEqual => seq!['<', '='],
        BinaryOperator::GreaterThan => seq!['>'],
        BinaryOperator::GreaterThanOrEqual => seq!['>', '='],
        BinaryOperator::Equals => seq!['=', '='],
        BinaryOperator::NotEquals => seq!['!', '='],
        BinaryOperator::And => seq!['a', 'n', 'd'],
        BinaryOperator::Or => seq!['o', 'r'],
    }
}

impl BinaryOperator {
    /// How the operator is written.
    pub fn as_str(&self) -> (r: &'static str)
        ensures
            r@ == operator_text(*self),
    {
        let r = match self {
            BinaryOperator::Add => "+",
            BinaryOperator::Subtract => "-",
            BinaryOperator::Multiply => "*",
            BinaryOperator::Divide => "/",
            BinaryOperator::Power => "^",
            BinaryOperator::Modulo => "%",
            BinaryOperator::LessThan => "<",
            BinaryOperator::LessThanOrEqual => "<=",
            BinaryOperator::GreaterThan => ">",
            BinaryOperator::GreaterThanOrEqual => ">=",
            BinaryOperator::Equals => "==",
            BinaryOperator::NotEquals => "!=",
            BinaryOperator::And => "and",
            BinaryOperator::Or => "or",
        };
        proof {
            reveal_strlit("+");
            reveal_strlit("-");
            reveal_strlit("*");
            reveal_strlit("/");
            reveal_strlit("^");
            reveal_strlit("%");
            reveal_strlit("<");
            reveal_strlit("<=");
            reveal_strlit(">");
            reveal_strlit(">=");
            reveal_strlit("==");
            reveal_strlit("!=");
            reveal_strlit("and");
            reveal_strlit("or");
        }
        r
    }
}

/// An expression.
pub enum Expression {
    Call(CallExpression),
    VarUse(VarUseExpression),
    Literal(LiteralExpression),
    Binary(BinaryExpression),
}

pub type ExpressionNode = AstNode<Expression>;

/// A call of a callee with arguments.
pub struct CallExpression {
    pub callee: Box<ExpressionNode>,
    pub arguments: Vec<ExpressionNode>,
}

/// The use of a variable.
pub struct VarUseExpression {
    pub name: IdentifierNode,
}

/// A literal value.
pub struct LiteralExpression {
    pub value: Value,
}

/// An operator applied to two operands.
pub struct BinaryExpression {
    pub left: Box<ExpressionNode>,
    pub operator: BinaryOperator,
    pub right: Box<ExpressionNode>,
}

/// A statement.
pub enum Statement {
    Expression(ExpressionStatement),
    FunctionDefinition(FunctionDefinitionStatement),
}

pub type StatementNode = AstNode<Statement>;

/// An expression evaluated for its value.
pub struct ExpressionStatement {
    pub expression: ExpressionNode,
}

/// The definition of a function.
pub struct FunctionDefinitionStatement {
    pub function_definition: FunctionDefinitionNode,
}

/// A function definition; copies share it.
pub struct FunctionDefinition {
    pub inner: Arc<FunctionDefinitionInner>,
}

/// The parts of a function definition.
pub struct FunctionDefinitionInner {
    pub name: IdentifierNode,
    pub annotations: Vec<IdentifierNode>,
    pub parameters: Vec<IdentifierNode>,
    pub statements: Vec<StatementNode>,
}

pub type FunctionDefinitionNode = AstNode<FunctionDefinition>;

/// A whole script.
pub struct Script {
    pub statements: Vec<StatementNode>,
}

pub type ScriptNode = AstNode<Script>;

// ---- the mathematical form of the syntax tree ----

/// A name and where it was read.
pub struct IdentView {
    pub name: Seq<char>,
    pub span: SourceSpan,
}

/// An expression and where it was read.
pub struct ExprNodeView {
    pub expr: ExprView,
    pub span: SourceSpan,
}

/// The forms of expressions.
pub enum ExprView {
    Call(Box<ExprNodeView>, Seq<ExprNodeView>),
    VarUse(IdentView),
    Literal(ValueView),
    Binary(Box<ExprNodeView>, BinaryOperator, Box<ExprNodeView>),
}

/// A function definition: its name, annotations, parameters and body.
pub struct FunView {
    pub name: IdentView,
    pub annotations: Seq<IdentView>,
    pub parameters: Seq<IdentView>,
    pub statements: Seq<StmtNodeView>,
}

/// The forms of statements.
pub enum StmtView {
    Expression(ExprNodeView),
    FunctionDefinition(FunView, SourceSpan),
}

/// A statement and where it was read.
pub struct StmtNodeView {
    pub stmt: StmtView,
    pub span: SourceSpan,
}

pub open spec fn ident_view(i: IdentifierNode) -> IdentView {
    IdentView { name: i.data.name@, span: i.span }
}

pub open spec fn ident_views(v: Seq<IdentifierNode>) -> Seq<IdentView> {
    v.map_values(|i: IdentifierNode| ident_view(i))
}

pub open spec fn expr_view(e: ExpressionNode) -> ExprNodeView
    decreases e, 0int,
{
    ExprNodeView {
        expr: match e.data {
            Expression::Call(c) => ExprView::Call(
                Box::new(expr_view(*c.callee)),
                expr_views(c.arguments, 0),
            ),
            Expression::VarUse(v) => ExprView::VarUse(ident_view(v.name)),
            Expression::Literal(l) => ExprView::Literal(l.value@),
            Expression::Binary(b) => ExprView::Binary(
                Box::new(expr_view(*b.left)),
                b.operator,
                Box::new(expr_view(*b.right)),
            ),
        },
        span: e.span,
    }
}

/// The form of a call expression.
pub open spec fn call_view(c: CallExpression) -> ExprView {
    ExprView::Call(Box::new(expr_view(*c.callee)), expr_views(c.arguments, 0))
}

/// The form of a binary expression.
pub open spec fn binary_view(b: BinaryExpression) -> ExprView {
    ExprView::Binary(Box::new(expr_view(*b.left)), b.operator, Box::new(expr_view(*b.right)))
}

pub open spec fn expr_views(v: Vec<ExpressionNode>, i: int) -> Seq<ExprNodeView>
    decreases v, v.len() - i,
{
    if 0 <= i < v.len() {
        seq![expr_view(v[i])] + expr_views(v, i + 1)
    } else {
        seq![]
    }
}

pub open spec fn fun_view(f: FunctionDefinition) -> FunView
    decreases f, 0int,
{
    FunView {
        name: ident_view(f.inner.name),
        annotations: ident_views(f.inner.annotations@),
        parameters: ident_views(f.inner.parameters@),
        statements: stmt_views(f.inner.statements, 0),
    }
}

pub open spec fn stmt_view(s: StatementNode) -> StmtNodeView
    decreases s, 0int,
{
    StmtNodeView {
        stmt: match s.data {
            Statement::Expression(e) => StmtView::Expression(expr_view(e.expression)),
            Statement::FunctionDefinition(f) => StmtView::FunctionDefinition(
                fun_view(f.function_definition.data),
                f.function_definition.span,
            ),
        },
        span: s.span,
    }
}

pub open spec fn stmt_views(v: Vec<StatementNode>, i: int) -> Seq<StmtNodeView>
    decreases v, v.len() - i,
{
    if 0 <= i < v.len() {
        seq![stmt_view(v[i])] + stmt_views(v, i + 1)
    } else {
        seq![]
    }
}


pub proof fn lemma_expr_views(v: Vec<ExpressionNode>, i: int)
    requires
        0 <= i <= v.len(),
    ensures
        expr_views(v, i) =~= v@.subrange(i, v.len() as int).map_values(|e: ExpressionNode| expr_view(e)),
    decreases v.len() - i,
{
    if i < v.len() {
        lemma_expr_views(v, i + 1);
    }
}

pub proof fn lemma_stmt_views(v: Vec<StatementNode>, i: int)
    requires
        0 <= i <= v.len(),
    ensures
        stmt_views(v, i) =~= v@.subrange(i, v.len() as int).map_values(|s: StatementNode| stmt_view(s)),
    decreases v.len() - i,
{
    if i < v.len() {
        lemma_stmt_views(v, i + 1);
    }
}

impl Expression {
    pub fn call(callee: ExpressionNode, arguments: Vec<ExpressionNode>) -> (r: Self)
        ensures
            r == Expression::Call(CallExpression { callee: Box::new(callee), arguments }),
    {
        Expression::Call(CallExpression { callee: Box::new(callee), arguments })
    }

    pub fn var_use(name: IdentifierNode) -> (r: Self)
        ensures
            r == Expression::VarUse(VarUseExpression { name }),
    {
        Expression::VarUse(VarUseExpression { name })
    }

    pub fn literal(value: Value) -> (r: Self)
        ensures
            r == Expression::Literal(LiteralExpression { value }),
    {
        Expression::Literal(LiteralExpression { value })
    }

    pub fn binary(left: ExpressionNode, operator: BinaryOperator, right: ExpressionNode) -> (r: Self)
        ensures
            r == Expression::Binary(BinaryExpression { left: Box::new(left), operator, right: Box::new(right) }),
    {
        Expression::Binary(BinaryExpression { left: Box::new(left), operator, right: Box::new(right) })
    }
}

impl CallExpression {
    pub fn callee(&self) -> (r: &ExpressionNode)
        ensures
            *r == *self.callee,
    {
        &self.callee
    }

    pub fn arguments(&self) -> (r: &[ExpressionNode])
        ensures
            r@ == self.arguments@,
    {
        self.arguments.as_slice()
    }
}

impl VarUseExpression {
    pub fn name(&self) -> (r: &IdentifierNode)
        ensures
            *r == self.name,
    {
        &self.name
    }
}

impl LiteralExpression {
    pub fn value(&self) -> (r: &Value)
        ensures
            *r == self.value,
    {
        &self.value
    }
}

impl BinaryExpression {
    pub fn left(&self) -> (r: &ExpressionNode)
        ensures
            *r == *self.left,
    {
        &self.left
    }

    pub fn operator(&self) -> (r: &BinaryOperator)
        ensures
            *r == self.operator,
    {
        &self.operator
    }

    pub fn right(&self) -> (r: &ExpressionNode)
        ensures
            *r == *self.right,
    {
        &self.right
    }
}

impl FunctionDefinition {
    pub fn new(
        name: IdentifierNode,
        annotations: Vec<IdentifierNode>,
        parameters: Vec<IdentifierNode>,
        statements: Vec<StatementNode>,
    ) -> (r: Self)
        ensures
            r.inner.name == name,
            r.inner.annotations == annotations,
            r.inner.parameters == parameters,
            r.inner.statements == statements,
    {
        FunctionDefinition { inner: Arc::new(FunctionDefinitionInner { name, annotations, parameters, statements }) }
    }

    pub fn name(&self) -> (r: &IdentifierNode)
        ensures
            *r == self.inner.name,
    {
        &self.inner.name
    }

    pub fn annotations(&self) -> (r: &Vec<IdentifierNode>)
        ensures
            *r == self.inner.annotations,
    {
        &self.inner.annotations
    }

    pub fn parameters(&self) -> (r: &Vec<IdentifierNode>)
        ensures
            *r == self.inner.parameters,
    {
        &self.inner.parameters
    }

    pub fn statements(&self) -> (r: &Vec<StatementNode>)
        ensures
            *r == self.inner.statements,
    {
        &self.inner.statements
    }
}

impl Clone for FunctionDefinition {
    fn clone(&self) -> (r: Self)
        ensures
            r == *self,
    {
        FunctionDefinition { inner: share(&self.inner) }
    }
}

impl Script {
    pub fn new(statements: Vec<StatementNode>) -> (r: Self)
        ensures
            r.statements == statements,
    {
        Script { statements }
    }
}

} // verus!
