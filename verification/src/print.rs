//! A textual dump of syntax trees, one node per line with its span, used to check parses.

use crate::ast::{
    binary_view, call_view, expr_view, expr_views, fun_view, ident_view, ident_views, lemma_expr_views,
    lemma_stmt_views, operator_text, stmt_view, stmt_views, ExprNodeView, ExprView, Expression, ExpressionNode,
    FunView, FunctionDefinition, IdentView, Identifier, IdentifierNode, Script, ScriptNode, Statement,
    StatementNode, StmtNodeView, StmtView,
};
use crate::message::EffyError;
use crate::span::SourceSpan;
use crate::text::{
    nat_decimal, pad_left_spec, pad_right_spec, push_char, push_padded_left, push_padded_right, push_spaces,
    push_str, spaces, u64_to_decimal,
};
use crate::value::value_text;
use vstd::prelude::*;

verus! {

/// `indent` spaces.
pub fn indent(write: &mut String, width: usize) -> (r: Result<(), EffyError>)
    ensures
        r is Ok,
        final(write)@ == old(write)@ + spaces(width as nat),
{
    push_spaces(write, width);
    Ok(())
}

/// The start of a node's line: a tree mark, the span's start right-aligned in three
/// columns, `+`, and its length left-aligned in three columns.
pub open spec fn node_prefix(span: SourceSpan) -> Seq<char> {
    seq!['\u{1f332}', ' '] + pad_left_spec(nat_decimal(span.range.start as nat), 3) + seq!['+'] + pad_right_spec(
        nat_decimal(span.spec_len()),
        3,
    )
}

/// A name between angle quotes.
pub open spec fn ident_text(i: IdentView) -> Seq<char> {
    seq!['\u{276e}'] + i.name + seq!['\u{276f}']
}

/// The dump of an expression's own data; sub-expressions are dumped one level deeper.
pub open spec fn expr_text(e: ExprView, indent: nat) -> Seq<char>
    decreases e, 0int,
{
    match e {
        ExprView::Call(callee, args) => " call "@ + expr_text(callee.expr, indent + 1) + seq!['\n'] + args_text(
            args,
            0,
            indent + 1,
        ),
        ExprView::VarUse(id) => " var use "@ + ident_text(id),
        ExprView::Literal(v) => " literal "@ + value_text(v) + seq!['\n'],
        ExprView::Binary(left, op, right) => " binary "@ + operator_text(op) + seq!['\n'] + expr_text(
            left.expr,
            indent + 1,
        ) + expr_text(right.expr, indent + 1),
    }
}

/// The dumps of the argument nodes from index `i` on.
pub open spec fn args_text(args: Seq<ExprNodeView>, i: int, indent: nat) -> Seq<char>
    decreases args, args.len() - i,
{
    if 0 <= i < args.len() {
        node_prefix(args[i].span) + spaces(indent) + expr_text(args[i].expr, indent) + args_text(args, i + 1, indent)
    } else {
        seq![]
    }
}

/// The dumps of identifier nodes, one per line.
pub open spec fn idents_text(ids: Seq<IdentView>, i: int, indent: nat) -> Seq<char>
    decreases ids.len() - i,
{
    if 0 <= i < ids.len() {
        node_prefix(ids[i].span) + spaces(indent) + ident_text(ids[i]) + seq!['\n'] + idents_text(ids, i + 1, indent)
    } else {
        seq![]
    }
}

/// The dump of a function definition's own data.
pub open spec fn fun_text(f: FunView, indent: nat) -> Seq<char>
    decreases f, 0int,
{
    "fun "@ + f.name.name + seq!['\n'] + idents_text(f.annotations, 0, indent + 1) + idents_text(
        f.parameters,
        0,
        indent + 1,
    ) + stmts_text(f.statements, 0, indent + 1)
}

/// The dump of a statement's own data.
pub open spec fn stmt_text(s: StmtView, indent: nat) -> Seq<char>
    decreases s, 0int,
{
    match s {
        StmtView::Expression(e) => "stmt "@ + expr_text(e.expr, indent + 1),
        StmtView::FunctionDefinition(f, span) => "stmt function definition\n"@ + node_prefix(span) + spaces(indent + 1)
            + fun_text(f, indent + 1),
    }
}

/// The dumps of the statement nodes from index `i` on.
pub open spec fn stmts_text(stmts: Seq<StmtNodeView>, i: int, indent: nat) -> Seq<char>
    decreases stmts, stmts.len() - i,
{
    if 0 <= i < stmts.len() {
        node_prefix(stmts[i].span) + spaces(indent) + stmt_text(stmts[i].stmt, indent) + stmts_text(
            stmts,
            i + 1,
            indent,
        )
    } else {
        seq![]
    }
}

fn push_node_prefix(write: &mut String, span: &SourceSpan)
    ensures
        final(write)@ == old(write)@ + node_prefix(*span),
{
    push_char(write, '\u{1f332}');
    push_char(write, ' ');
    let start = u64_to_decimal(span.start() as u64);
    push_padded_left(write, start.as_str(), 3);
    push_char(write, '+');
    let len = u64_to_decimal(span.len() as u64);
    push_padded_right(write, len.as_str(), 3);
    assert(write@ =~= old(write)@ + node_prefix(*span));
}

fn push_ident(write: &mut String, identifier: &Identifier)
    ensures
        final(write)@ == old(write)@ + seq!['\u{276e}'] + identifier.name@ + seq!['\u{276f}'],
{
    push_char(write, '\u{276e}');
    push_str(write, identifier.name.as_str());
    push_char(write, '\u{276f}');
}

/// The form of an expression's data.
pub open spec fn expression_view(e: Expression) -> ExprView {
    match e {
        Expression::Call(c) => call_view(c),
        Expression::VarUse(v) => ExprView::VarUse(ident_view(v.name)),
        Expression::Literal(l) => ExprView::Literal(l.value@),
        Expression::Binary(b) => binary_view(b),
    }
}

/// The form of a statement's data.
pub open spec fn statement_view(s: Statement) -> StmtView {
    match s {
        Statement::Expression(e) => StmtView::Expression(expr_view(e.expression)),
        Statement::FunctionDefinition(f) => StmtView::FunctionDefinition(
            fun_view(f.function_definition.data),
            f.function_definition.span,
        ),
    }
}

/// A measure of a statement for dumping: its nodes, function bodies included.
pub open spec fn stmt_tree_size(s: StmtView) -> nat
    decreases s, 0int,
{
    match s {
        StmtView::Expression(e) => 1 + crate::semantics::expr_size(e.expr),
        StmtView::FunctionDefinition(f, _) => 2 + stmts_tree_size(f.statements, 0),
    }
}

/// The measure of the statements from index `i` on.
pub open spec fn stmts_tree_size(stmts: Seq<StmtNodeView>, i: int) -> nat
    decreases stmts, stmts.len() - i,
{
    if 0 <= i < stmts.len() {
        1 + stmt_tree_size(stmts[i].stmt) + stmts_tree_size(stmts, i + 1)
    } else {
        0
    }
}

proof fn lemma_expression_view(n: ExpressionNode)
    ensures
        expression_view(n.data) == expr_view(n).expr,
{
}

fn print_expression_data(write: &mut String, expression: &Expression, indent: usize)
    requires
        indent + crate::semantics::expr_size(expression_view(*expression)) <= usize::MAX,
    ensures
        final(write)@ == old(write)@ + expr_text(expression_view(*expression), indent as nat),
    decreases crate::semantics::expr_size(expression_view(*expression)), 1int,
{
    match expression {
        Expression::Call(call) => {
            proof {
                reveal_strlit(" call ");
                lemma_expression_view(*call.callee);
            }
            push_str(write, " call ");
            print_expression_data(write, &call.callee.data, indent + 1);
            push_char(write, '\n');
            print_arguments(write, &call.arguments, 0, indent + 1);
            assert(write@ =~= old(write)@ + expr_text(expression_view(*expression), indent as nat));
        },
        Expression::VarUse(var_use) => {
            proof {
                reveal_strlit(" var use ");
            }
            push_str(write, " var use ");
            push_ident(write, &var_use.name.data);
            assert(write@ =~= old(write)@ + expr_text(expression_view(*expression), indent as nat));
        },
        Expression::Literal(literal) => {
            proof {
                reveal_strlit(" literal ");
            }
            push_str(write, " literal ");
            let shown = literal.value.to_display_string();
            push_str(write, shown.as_str());
            push_char(write, '\n');
            assert(write@ =~= old(write)@ + expr_text(expression_view(*expression), indent as nat));
        },
        Expression::Binary(binary) => {
            proof {
                reveal_strlit(" binary ");
                lemma_expression_view(*binary.left);
                lemma_expression_view(*binary.right);
            }
            push_str(write, " binary ");
            push_str(write, binary.operator.as_str());
            push_char(write, '\n');
            print_expression_data(write, &binary.left.data, indent + 1);
            print_expression_data(write, &binary.right.data, indent + 1);
            assert(write@ =~= old(write)@ + expr_text(expression_view(*expression), indent as nat));
        },
    }
}

fn print_arguments(write: &mut String, arguments: &Vec<ExpressionNode>, i: usize, indent: usize)
    requires
        i <= arguments.len(),
        indent + crate::semantics::args_size(expr_views(*arguments, 0), i as int) <= usize::MAX,
    ensures
        final(write)@ == old(write)@ + args_text(expr_views(*arguments, 0), i as int, indent as nat),
    decreases crate::semantics::args_size(expr_views(*arguments, 0), i as int), 0int,
{
    proof {
        lemma_expr_views(*arguments, 0);
        assert(arguments@.subrange(0, arguments@.len() as int) =~= arguments@);
    }
    if i < arguments.len() {
        assert(expr_views(*arguments, 0)[i as int] == expr_view(arguments@[i as int]));
        print_expression_node(write, &arguments[i], indent);
        print_arguments(write, arguments, i + 1, indent);
        assert(write@ =~= old(write)@ + args_text(expr_views(*arguments, 0), i as int, indent as nat));
    } else {
        assert(write@ =~= old(write)@ + args_text(expr_views(*arguments, 0), i as int, indent as nat));
    }
}

fn print_expression_node(write: &mut String, node: &ExpressionNode, indent: usize)
    requires
        indent + crate::semantics::expr_size(expr_view(*node).expr) <= usize::MAX,
    ensures
        final(write)@ == old(write)@ + node_prefix(node.span) + spaces(indent as nat) + expr_text(
            expr_view(*node).expr,
            indent as nat,
        ),
    decreases crate::semantics::expr_size(expr_view(*node).expr), 2int,
{
    push_node_prefix(write, &node.span);
    push_spaces(write, indent);
    assert(expression_view(node.data) == expr_view(*node).expr);
    print_expression_data(write, &node.data, indent);
    assert(write@ =~= old(write)@ + node_prefix(node.span) + spaces(indent as nat) + expr_text(
        expr_view(*node).expr,
        indent as nat,
    ));
}

fn print_identifiers(write: &mut String, identifiers: &Vec<IdentifierNode>, indent: usize)
    ensures
        final(write)@ == old(write)@ + idents_text(ident_views(identifiers@), 0, indent as nat),
{
    let ghost ids = ident_views(identifiers@);
    let mut j: usize = 0;
    while j < identifiers.len()
        invariant
            j <= identifiers.len(),
            ids == ident_views(identifiers@),
            write@ == old(write)@ + idents_prefix(ids, j as int, indent as nat),
        decreases identifiers.len() - j,
    {
        push_node_prefix(write, &identifiers[j].span);
        push_spaces(write, indent);
        push_ident(write, &identifiers[j].data);
        push_char(write, '\n');
        proof {
            lemma_idents_prefix_step(ids, j as int, indent as nat);
        }
        assert(write@ =~= old(write)@ + idents_prefix(ids, j + 1, indent as nat));
        j = j + 1;
    }
    proof {
        lemma_idents_prefix_all(ids, indent as nat);
    }
}

/// The dumps of the first `j` identifiers.
pub open spec fn idents_prefix(ids: Seq<IdentView>, j: int, indent: nat) -> Seq<char>
    decreases j,
{
    if j <= 0 || j > ids.len() {
        seq![]
    } else {
        idents_prefix(ids, j - 1, indent) + node_prefix(ids[j - 1].span) + spaces(indent) + ident_text(ids[j - 1])
            + seq!['\n']
    }
}

proof fn lemma_idents_prefix_step(ids: Seq<IdentView>, j: int, indent: nat)
    requires
        0 <= j < ids.len(),
    ensures
        idents_prefix(ids, j + 1, indent) == idents_prefix(ids, j, indent) + node_prefix(ids[j].span) + spaces(
            indent,
        ) + ident_text(ids[j]) + seq!['\n'],
{
}

proof fn lemma_idents_prefix_split(ids: Seq<IdentView>, j: int, indent: nat)
    requires
        0 <= j <= ids.len(),
    ensures
        idents_prefix(ids, j, indent) + idents_text(ids, j, indent) == idents_text(ids, 0, indent),
    decreases j,
{
    if j > 0 {
        lemma_idents_prefix_split(ids, j - 1, indent);
        assert(idents_prefix(ids, j - 1, indent) + idents_text(ids, j - 1, indent) =~= idents_prefix(ids, j, indent)
            + idents_text(ids, j, indent));
    } else {
        assert(idents_prefix(ids, 0, indent) + idents_text(ids, 0, indent) =~= idents_text(ids, 0, indent));
    }
}

proof fn lemma_idents_prefix_all(ids: Seq<IdentView>, indent: nat)
    ensures
        idents_prefix(ids, ids.len() as int, indent) == idents_text(ids, 0, indent),
{
    lemma_idents_prefix_split(ids, ids.len() as int, indent);
    assert(idents_prefix(ids, ids.len() as int, indent) + idents_text(ids, ids.len() as int, indent) =~= idents_prefix(
        ids,
        ids.len() as int,
        indent,
    ));
}

fn print_statement_data(write: &mut String, statement: &Statement, indent: usize)
    requires
        indent + stmt_tree_size(statement_view(*statement)) <= usize::MAX,
    ensures
        final(write)@ == old(write)@ + stmt_text(statement_view(*statement), indent as nat),
    decreases stmt_tree_size(statement_view(*statement)), 1int,
{
    match statement {
        Statement::Expression(expression) => {
            proof {
                reveal_strlit("stmt ");
                lemma_expression_view(expression.expression);
            }
            push_str(write, "stmt ");
            print_expression_data(write, &expression.expression.data, indent + 1);
            assert(write@ =~= old(write)@ + stmt_text(statement_view(*statement), indent as nat));
        },
        Statement::FunctionDefinition(definition) => {
            proof {
                reveal_strlit("stmt function definition\n");
            }
            push_str(write, "stmt function definition\n");
            push_node_prefix(write, &definition.function_definition.span);
            push_spaces(write, indent + 1);
            print_function(write, &definition.function_definition.data, indent + 1);
            assert(write@ =~= old(write)@ + stmt_text(statement_view(*statement), indent as nat));
        },
    }
}

fn print_function(write: &mut String, function: &FunctionDefinition, indent: usize)
    requires
        indent + 1 + stmts_tree_size(fun_view(*function).statements, 0) <= usize::MAX,
    ensures
        final(write)@ == old(write)@ + fun_text(fun_view(*function), indent as nat),
    decreases stmts_tree_size(fun_view(*function).statements, 0), 2int,
{
    proof {
        reveal_strlit("fun ");
    }
    push_str(write, "fun ");
    push_str(write, function.name().data.name.as_str());
    push_char(write, '\n');
    print_identifiers(write, function.annotations(), indent + 1);
    print_identifiers(write, function.parameters(), indent + 1);
    print_statements(write, function.statements(), 0, indent + 1);
    assert(write@ =~= old(write)@ + fun_text(fun_view(*function), indent as nat));
}

fn print_statements(write: &mut String, statements: &Vec<StatementNode>, i: usize, indent: usize)
    requires
        i <= statements.len(),
        indent + stmts_tree_size(stmt_views(*statements, 0), i as int) <= usize::MAX,
    ensures
        final(write)@ == old(write)@ + stmts_text(stmt_views(*statements, 0), i as int, indent as nat),
    decreases stmts_tree_size(stmt_views(*statements, 0), i as int), 1int,
{
    proof {
        lemma_stmt_views(*statements, 0);
        assert(statements@.subrange(0, statements@.len() as int) =~= statements@);
    }
    if i < statements.len() {
        assert(stmt_views(*statements, 0)[i as int] == stmt_view(statements@[i as int]));
        print_statement_node(write, &statements[i], indent);
        print_statements(write, statements, i + 1, indent);
        assert(write@ =~= old(write)@ + stmts_text(stmt_views(*statements, 0), i as int, indent as nat));
    } else {
        assert(write@ =~= old(write)@ + stmts_text(stmt_views(*statements, 0), i as int, indent as nat));
    }
}

fn print_statement_node(write: &mut String, node: &StatementNode, indent: usize)
    requires
        indent + stmt_tree_size(stmt_view(*node).stmt) <= usize::MAX,
    ensures
        final(write)@ == old(write)@ + node_prefix(node.span) + spaces(indent as nat) + stmt_text(
            stmt_view(*node).stmt,
            indent as nat,
        ),
    decreases stmt_tree_size(stmt_view(*node).stmt), 2int,
{
    push_node_prefix(write, &node.span);
    push_spaces(write, indent);
    assert(statement_view(node.data) == stmt_view(*node).stmt);
    print_statement_data(write, &node.data, indent);
    assert(write@ =~= old(write)@ + node_prefix(node.span) + spaces(indent as nat) + stmt_text(
        stmt_view(*node).stmt,
        indent as nat,
    ));
}

/// Dumping a syntax tree as text, one node per line.
pub trait TestPrint {
    /// The dump, with nested nodes indented from `indent` on.
    spec fn test_text(&self, indent: nat) -> Seq<char>;

    /// How deep the dump can indent beyond `indent`.
    spec fn print_size(&self) -> nat;

    fn test_print(&self, write: &mut String, indent: usize) -> (r: Result<(), EffyError>)
        requires
            indent + self.print_size() <= usize::MAX,
        ensures
            r is Ok,
            final(write)@ == old(write)@ + self.test_text(indent as nat),
    ;

    fn test_print_to_string(&self, indent: usize) -> (r: Result<String, EffyError>)
        requires
            indent + self.print_size() <= usize::MAX,
        ensures
            r matches Ok(s) && s@ == self.test_text(indent as nat),
    {
        let mut string = String::new();
        match self.test_print(&mut string, indent) {
            Ok(()) => {},
            Err(e) => {
                return Err(e);
            },
        }
        assert(string@ =~= self.test_text(indent as nat));
        Ok(string)
    }
}

impl TestPrint for Script {
    open spec fn test_text(&self, indent: nat) -> Seq<char> {
        spaces(indent) + "Script\n"@ + stmts_text(stmt_views(self.statements, 0), 0, indent + 1)
    }

    open spec fn print_size(&self) -> nat {
        1 + stmts_tree_size(stmt_views(self.statements, 0), 0)
    }

    fn test_print(&self, write: &mut String, indent: usize) -> (r: Result<(), EffyError>) {
        proof {
            reveal_strlit("Script\n");
        }
        push_spaces(write, indent);
        push_str(write, "Script\n");
        print_statements(write, &self.statements, 0, indent + 1);
        assert(write@ =~= old(write)@ + self.test_text(indent as nat));
        Ok(())
    }
}

impl TestPrint for ScriptNode {
    open spec fn test_text(&self, indent: nat) -> Seq<char> {
        node_prefix(self.span) + spaces(indent) + self.data.test_text(indent)
    }

    open spec fn print_size(&self) -> nat {
        self.data.print_size()
    }

    fn test_print(&self, write: &mut String, indent: usize) -> (r: Result<(), EffyError>) {
        push_node_prefix(write, &self.span);
        push_spaces(write, indent);
        let r = self.data.test_print(write, indent);
        assert(write@ =~= old(write)@ + self.test_text(indent as nat));
        r
    }
}

impl TestPrint for Statement {
    open spec fn test_text(&self, indent: nat) -> Seq<char> {
        stmt_text(statement_view(*self), indent)
    }

    open spec fn print_size(&self) -> nat {
        stmt_tree_size(statement_view(*self))
    }

    fn test_print(&self, write: &mut String, indent: usize) -> (r: Result<(), EffyError>) {
        print_statement_data(write, self, indent);
        Ok(())
    }
}

impl TestPrint for StatementNode {
    open spec fn test_text(&self, indent: nat) -> Seq<char> {
        node_prefix(self.span) + spaces(indent) + stmt_text(stmt_view(*self).stmt, indent)
    }

    open spec fn print_size(&self) -> nat {
        stmt_tree_size(stmt_view(*self).stmt)
    }

    fn test_print(&self, write: &mut String, indent: usize) -> (r: Result<(), EffyError>) {
        print_statement_node(write, self, indent);
        assert(write@ =~= old(write)@ + self.test_text(indent as nat));
        Ok(())
    }
}

impl TestPrint for Expression {
    open spec fn test_text(&self, indent: nat) -> Seq<char> {
        expr_text(expression_view(*self), indent)
    }

    open spec fn print_size(&self) -> nat {
        crate::semantics::expr_size(expression_view(*self))
    }

    fn test_print(&self, write: &mut String, indent: usize) -> (r: Result<(), EffyError>) {
        print_expression_data(write, self, indent);
        Ok(())
    }
}

impl TestPrint for ExpressionNode {
    open spec fn test_text(&self, indent: nat) -> Seq<char> {
        node_prefix(self.span) + spaces(indent) + expr_text(expr_view(*self).expr, indent)
    }

    open spec fn print_size(&self) -> nat {
        crate::semantics::expr_size(expr_view(*self).expr)
    }

    fn test_print(&self, write: &mut String, indent: usize) -> (r: Result<(), EffyError>) {
        print_expression_node(write, self, indent);
        assert(write@ =~= old(write)@ + self.test_text(indent as nat));
        Ok(())
    }
}

impl TestPrint for FunctionDefinition {
    open spec fn test_text(&self, indent: nat) -> Seq<char> {
        fun_text(fun_view(*self), indent)
    }

    open spec fn print_size(&self) -> nat {
        1 + stmts_tree_size(fun_view(*self).statements, 0)
    }

    fn test_print(&self, write: &mut String, indent: usize) -> (r: Result<(), EffyError>) {
        print_function(write, self, indent);
        Ok(())
    }
}

impl TestPrint for Identifier {
    open spec fn test_text(&self, indent: nat) -> Seq<char> {
        seq!['\u{276e}'] + self.name@ + seq!['\u{276f}']
    }

    open spec fn print_size(&self) -> nat {
        0
    }

    fn test_print(&self, write: &mut String, indent: usize) -> (r: Result<(), EffyError>) {
        push_ident(write, self);
        Ok(())
    }
}

impl TestPrint for IdentifierNode {
    open spec fn test_text(&self, indent: nat) -> Seq<char> {
        node_prefix(self.span) + spaces(indent) + ident_text(ident_view(*self))
    }

    open spec fn print_size(&self) -> nat {
        0
    }

    fn test_print(&self, write: &mut String, indent: usize) -> (r: Result<(), EffyError>) {
        push_node_prefix(write, &self.span);
        push_spaces(write, indent);
        push_ident(write, &self.data);
        assert(write@ =~= old(write)@ + self.test_text(indent as nat));
        Ok(())
    }
}

} // verus!
