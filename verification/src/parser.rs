//! Reading a script into a syntax tree.

use crate::ast::{
    expr_view, ident_view, ident_views, lemma_expr_views, lemma_stmt_views, stmt_view, stmt_views,
    AstNode, ExpressionStatement, FunctionDefinition, FunctionDefinitionStatement, Script,
    ScriptNode, Statement, StatementNode, BinaryOperator, ExprNodeView, ExprView, Expression,
    ExpressionNode, FunView, Identifier, IdentifierNode, IdentView, StmtNodeView, StmtView,
};
use crate::message::{is_whole_file_error, span_in_text, whole_file_error, EffyError};
use crate::source::SourceFile;
use crate::token::Token;
use crate::tokenize::{
    lemma_stream_step, lemma_stream_wf, lexeme_item, lexeme_wf, next_step, state_at, token_stream,
    tokenize, Tokenizer,
};
use crate::text::{byte_len, char_index, is_char_offset, lemma_byte_offset_monotone, lemma_char_index};
use std::ops::Range;
use crate::span::SourceSpan;
use crate::token::{kind_name, token_name, TokenKind};
use crate::tokenize::{byte_span, lemma_stream_ordered, lexeme_end, lexeme_start, tokens_of, Lexeme};

use crate::text::{byte_offset, chars_of, decimal_value, push_char, push_str};
use crate::value::{Value, ValueView};
use vstd::prelude::*;

verus! {

/// The character an escape code stands for.
pub open spec fn escaped(code: char) -> Option<char> {
    if code == 'n' {
        Some('\n')
    } else if code == 't' {
        Some('\t')
    } else if code == '"' {
        Some('"')
    } else if code == '\\' {
        Some('\\')
    } else {
        None
    }
}

/// The text a string literal's content stands for, with backslash escapes replaced,
/// or the message of the first bad escape.
pub open spec fn unescape(c: Seq<char>) -> Result<Seq<char>, Seq<char>>
    decreases c.len(),
{
    if c.len() == 0 {
        Ok(seq![])
    } else if c[0] == '\\' {
        if c.len() == 1 {
            Err("Incomplete escape sequence"@)
        } else if escaped(c[1]) is Some {
            match unescape(c.skip(2)) {
                Ok(r) => Ok(seq![escaped(c[1])->0] + r),
                Err(e) => Err(e),
            }
        } else {
            Err("Invalid escape sequence: \\"@ + seq![c[1]])
        }
    } else {
        match unescape(c.skip(1)) {
            Ok(r) => Ok(seq![c[0]] + r),
            Err(e) => Err(e),
        }
    }
}

/// Content without backslashes stands for itself.
pub proof fn lemma_unescape_plain(c: Seq<char>)
    requires
        forall|i: int| 0 <= i < c.len() ==> c[i] != '\\',
    ensures
        unescape(c) == Ok::<Seq<char>, Seq<char>>(c),
    decreases c.len(),
{
    if c.len() > 0 {
        assert forall|i: int| 0 <= i < c.skip(1).len() implies c.skip(1)[i] != '\\' by {
            assert(c.skip(1)[i] == c[i + 1]);
        }
        lemma_unescape_plain(c.skip(1));
        assert(seq![c[0]] + c.skip(1) =~= c);
    } else {
        assert(c =~= Seq::<char>::empty());
    }
}

/// The content of a string literal that stands for `t`: each backslash, quote, line feed
/// and tab written as its escape, every other character as itself.
pub open spec fn escape(t: Seq<char>) -> Seq<char>
    decreases t.len(),
{
    if t.len() == 0 {
        seq![]
    } else {
        let c = t[0];
        let head = if c == '\\' {
            seq!['\\', '\\']
        } else if c == '"' {
            seq!['\\', '"']
        } else if c == '\n' {
            seq!['\\', 'n']
        } else if c == '\t' {
            seq!['\\', 't']
        } else {
            seq![c]
        };
        head + escape(t.skip(1))
    }
}

/// Unescaping undoes escaping: the literal `"` + `escape(t)` + `"` stands for `t`.
pub proof fn law_unescape_escape(t: Seq<char>)
    ensures
        unescape(escape(t)) == Ok::<Seq<char>, Seq<char>>(t),
        ({
            let lexeme = seq!['"'] + escape(t) + seq!['"'];
            unescape(lexeme.subrange(1, lexeme.len() - 1)) == Ok::<Seq<char>, Seq<char>>(t)
        }),
    decreases t.len(),
{
    let lexeme = seq!['"'] + escape(t) + seq!['"'];
    assert(lexeme.subrange(1, lexeme.len() - 1) =~= escape(t));
    if t.len() == 0 {
        assert(escape(t) =~= Seq::<char>::empty());
        assert(t =~= Seq::<char>::empty());
    } else {
        law_unescape_escape(t.skip(1));
        let c = t[0];
        let e = escape(t);
        let rest = escape(t.skip(1));
        if c == '\\' || c == '"' || c == '\n' || c == '\t' {
            let code = if c == '\\' {
                '\\'
            } else if c == '"' {
                '"'
            } else if c == '\n' {
                'n'
            } else {
                't'
            };
            assert(e == seq!['\\', code] + rest);
            assert(e[0] == '\\' && e[1] == code && e.len() >= 2);
            assert(escaped(code) == Some(c));
            assert(e.skip(2) =~= rest);
            assert(unescape(e) == Ok::<Seq<char>, Seq<char>>(seq![c] + t.skip(1)));
        } else {
            assert(e == seq![c] + rest);
            assert(e[0] == c);
            assert(e.skip(1) =~= rest);
            assert(unescape(e) == Ok::<Seq<char>, Seq<char>>(seq![c] + t.skip(1)));
        }
        assert(seq![c] + t.skip(1) =~= t);
    }
}

/// The value of a string literal (with its quotes), or the error of a bad escape.
pub fn extract_string_from_lexeme(lexeme: &str) -> (r: Result<Value, EffyError>)
    requires
        lexeme@.len() >= 2,
        lexeme@[0] == '"',
        lexeme@[lexeme@.len() - 1] == '"',
    ensures
        ({
            let u = unescape(lexeme@.subrange(1, lexeme@.len() - 1));
            &&& u is Ok ==> (r matches Ok(v) && v@ == ValueView::Str(u->Ok_0))
            &&& u is Err ==> (r matches Err(EffyError::Message(x)) && x@ == u->Err_0)
        }),
{
    let chars = chars_of(lexeme);
    let end = chars.len() - 1;
    let ghost content = lexeme@.subrange(1, lexeme@.len() - 1);
    let mut unescaped = String::new();
    let mut i: usize = 1;
    while i < end
        invariant
            chars@ == lexeme@,
            content == lexeme@.subrange(1, lexeme@.len() - 1),
            end == chars@.len() - 1,
            1 <= i <= end,
            unescape(content) == match unescape(chars@.subrange(i as int, end as int)) {
                Ok(rest) => Ok(unescaped@ + rest),
                Err(e) => Err(e),
            },
        decreases end - i,
    {
        let ghost rest = chars@.subrange(i as int, end as int);
        let c = chars[i];
        if c == '\\' {
            if i + 1 >= end {
                assert(rest.len() == 1 && rest[0] == '\\');
                assert(unescape(rest) == Err::<Seq<char>, Seq<char>>("Incomplete escape sequence"@));
                assert(unescape(content) == Err::<Seq<char>, Seq<char>>("Incomplete escape sequence"@));
                let e = EffyError::message("Incomplete escape sequence");
                assert(e matches EffyError::Message(x) && x@ == "Incomplete escape sequence"@);
                return Err(e);
            }
            let code = chars[i + 1];
            let m = if code == 'n' {
                '\n'
            } else if code == 't' {
                '\t'
            } else if code == '"' {
                '"'
            } else if code == '\\' {
                '\\'
            } else {
                let mut message = "Invalid escape sequence: \\".to_owned();
                push_char(&mut message, code);
                assert(rest.len() >= 2 && rest[0] == '\\' && rest[1] == code && escaped(code) is None);
                assert(message@ == "Invalid escape sequence: \\"@ + seq![code]);
                assert(unescape(rest) == Err::<Seq<char>, Seq<char>>("Invalid escape sequence: \\"@ + seq![rest[1]]));
                return Err(EffyError::Message(message));
            };
            assert(rest.skip(2) =~= chars@.subrange(i + 2, end as int));
            assert(escaped(code) == Some(m));
            let ghost u0 = unescaped@;
            assert(unescape(rest) == match unescape(rest.skip(2)) {
                Ok(r2) => Ok(seq![m] + r2),
                Err(e) => Err(e),
            });
            push_char(&mut unescaped, m);
            i = i + 2;
            proof {
                match unescape(chars@.subrange(i as int, end as int)) {
                    Ok(r2) => {
                        assert(u0 + (seq![m] + r2) =~= unescaped@ + r2);
                    },
                    Err(_) => {},
                }
            }
        } else {
            assert(rest.skip(1) =~= chars@.subrange(i + 1, end as int));
            let ghost u0 = unescaped@;
            assert(unescape(rest) == match unescape(rest.skip(1)) {
                Ok(r2) => Ok(seq![c] + r2),
                Err(e) => Err(e),
            });
            push_char(&mut unescaped, c);
            i = i + 1;
            proof {
                match unescape(chars@.subrange(i as int, end as int)) {
                    Ok(r2) => {
                        assert(u0 + (seq![c] + r2) =~= unescaped@ + r2);
                    },
                    Err(_) => {},
                }
            }
        }
    }
    assert(unescaped@ + chars@.subrange(i as int, end as int) =~= unescaped@);
    Ok(Value::String(unescaped))
}

/// The `i64` that a non-empty run of decimal digits denotes, or the error `str::parse`
/// gives when it does not fit.
pub fn parse_decimal(digits: &Vec<char>, from: usize, to: usize) -> (r: Result<i64, EffyError>)
    requires
        from < to <= digits@.len(),
        forall|i: int| from <= i < to ==> '0' <= #[trigger] digits@[i] <= '9',
    ensures
        ({
            let v = decimal_value(digits@.subrange(from as int, to as int));
            &&& v <= i64::MAX ==> r == Ok::<i64, EffyError>(v as i64)
            &&& v > i64::MAX ==> (r matches Err(EffyError::Message(m)) && m@
                == "number too large to fit in target type"@)
        }),
{
    let mut value: i64 = 0;
    let mut i = from;
    while i < to
        invariant
            from <= i <= to <= digits@.len(),
            forall|j: int| from <= j < to ==> '0' <= #[trigger] digits@[j] <= '9',
            value == decimal_value(digits@.subrange(from as int, i as int)),
            0 <= value,
        decreases to - i,
    {
        let d = (digits[i] as u32 - 48) as i64;
        assert(digits@.subrange(from as int, i + 1).drop_last() =~= digits@.subrange(from as int, i as int));
        if value > (i64::MAX - d) / 10 {
            assert(decimal_value(digits@.subrange(from as int, i + 1)) > i64::MAX);
            proof {
                lemma_decimal_prefix_bound(digits@.subrange(from as int, to as int), (i + 1 - from) as int);
                assert(digits@.subrange(from as int, to as int).subrange(0, (i + 1 - from) as int) =~= digits@.subrange(from as int, i + 1));
            }
            return Err(EffyError::message("number too large to fit in target type"));
        }
        value = value * 10 + d;
        i = i + 1;
    }
    Ok(value)
}

/// A longer run of digits denotes at least as much as its prefix.
proof fn lemma_decimal_prefix_bound(s: Seq<char>, k: int)
    requires
        0 <= k <= s.len(),
        forall|j: int| 0 <= j < s.len() ==> '0' <= #[trigger] s[j] <= '9',
    ensures
        decimal_value(s.subrange(0, k)) <= decimal_value(s),
        decimal_value(s) >= 0,
    decreases s.len(),
{
    if s.len() > 0 {
        if k == s.len() {
            assert(s.subrange(0, k) =~= s);
            lemma_decimal_prefix_bound(s.drop_last(), 0);
        } else {
            lemma_decimal_prefix_bound(s.drop_last(), k);
            assert(s.drop_last().subrange(0, k) =~= s.subrange(0, k));
        }
    } else {
        assert(s.subrange(0, k) =~= s);
    }
}


// ---- the grammar, over the tokens of a text ----

/// Why parsing stops.
pub enum ParseFailure {
    /// The tokenizer could not read the next token.
    Lex(Lexeme),
    /// An unexpected token, at the index: the message and the label on the token.
    AtToken(Seq<char>, int, Seq<char>),
    /// An error with a message only.
    Message(Seq<char>),
}

/// A parsed value and the index of the token after it, or why parsing stopped.
pub type Parsed<T> = Result<(T, int), ParseFailure>;

/// The kind of the token at index `p`.
pub open spec fn kind_at(toks: Seq<Lexeme>, p: int) -> TokenKind {
    if 0 <= p < toks.len() {
        match toks[p] {
            Lexeme::Token(k, _, _) => k,
            _ => TokenKind::EndOfFile,
        }
    } else {
        TokenKind::EndOfFile
    }
}

/// The character index where the token at `p` starts.
pub open spec fn first_char(toks: Seq<Lexeme>, p: int) -> int {
    if 0 <= p < toks.len() {
        match toks[p] {
            Lexeme::Token(_, a, _) => a,
            Lexeme::EndOfInput(j) => j,
            _ => 0,
        }
    } else {
        0
    }
}

/// The character index where the token at `p` ends.
pub open spec fn last_char(toks: Seq<Lexeme>, p: int) -> int {
    if 0 <= p < toks.len() {
        match toks[p] {
            Lexeme::Token(_, _, b) => b,
            Lexeme::EndOfInput(j) => j,
            _ => 0,
        }
    } else {
        0
    }
}

/// The characters of the token at `p`.
pub open spec fn lexeme_at(s: Seq<char>, toks: Seq<Lexeme>, p: int) -> Seq<char> {
    s.subrange(first_char(toks, p), last_char(toks, p))
}

/// The byte span of the token at `p`.
pub open spec fn token_span_at(s: Seq<char>, toks: Seq<Lexeme>, p: int) -> SourceSpan {
    byte_span(s, first_char(toks, p), last_char(toks, p))
}

/// The byte offset where the token at `p` starts.
pub open spec fn start_at(s: Seq<char>, toks: Seq<Lexeme>, p: int) -> usize {
    byte_offset(s, first_char(toks, p)) as usize
}

/// The byte offset where the last token before `p` ends, or 0.
pub open spec fn last_end(s: Seq<char>, toks: Seq<Lexeme>, p: int) -> usize {
    if p <= 0 {
        0
    } else {
        byte_offset(s, last_char(toks, p - 1)) as usize
    }
}

/// The span of a node that starts at byte `start` and whose last token is the one before `p`.
pub open spec fn node_span(s: Seq<char>, toks: Seq<Lexeme>, start: usize, p: int) -> SourceSpan {
    SourceSpan::from_bounds(start, last_end(s, toks, p))
}

/// Moving on from the token at `p`.
pub open spec fn advance_to(toks: Seq<Lexeme>, p: int) -> Result<int, ParseFailure> {
    if 0 <= p + 1 < toks.len() {
        match toks[p + 1] {
            Lexeme::Token(..) => Ok(p + 1),
            Lexeme::EndOfInput(_) => Ok(p + 1),
            f => Err(ParseFailure::Lex(f)),
        }
    } else {
        Err(ParseFailure::Message("No more token in source file, expected at least EOF"@))
    }
}

/// Taking the token at `p`, which must be of `kind`.
pub open spec fn consume(toks: Seq<Lexeme>, p: int, kind: TokenKind) -> Result<int, ParseFailure> {
    if kind_at(toks, p) == kind {
        advance_to(toks, p)
    } else {
        Err(
            ParseFailure::AtToken(
                "Unexpected token: "@ + token_name(kind_at(toks, p)) + ", expected "@ + kind_name(kind),
                p,
                "expected "@ + kind_name(kind) + " here"@,
            ),
        )
    }
}

/// Taking the token at `p`, which must be of `kind` and plays `role`.
pub open spec fn consume_role(toks: Seq<Lexeme>, p: int, kind: TokenKind, role: Seq<char>) -> Result<int, ParseFailure> {
    if kind_at(toks, p) == kind {
        advance_to(toks, p)
    } else {
        Err(
            ParseFailure::AtToken(
                "Unexpected token: "@ + token_name(kind_at(toks, p)) + ", expected "@ + role + " ("@
                    + kind_name(kind) + ")"@,
                p,
                "expected "@ + role + " ("@ + kind_name(kind) + ") here"@,
            ),
        )
    }
}

/// An identifier playing `role`.
pub open spec fn parse_identifier(s: Seq<char>, toks: Seq<Lexeme>, p: int, role: Seq<char>) -> Parsed<IdentView> {
    match consume_role(toks, p, TokenKind::Identifier, role) {
        Ok(p2) => Ok(
            (IdentView { name: lexeme_at(s, toks, p), span: node_span(s, toks, start_at(s, toks, p), p2) }, p2),
        ),
        Err(f) => Err(f),
    }
}

/// A variable, a string literal or an integer literal.
pub open spec fn parse_primary(s: Seq<char>, toks: Seq<Lexeme>, p: int) -> Parsed<ExprNodeView> {
    let start = start_at(s, toks, p);
    let kind = kind_at(toks, p);
    if kind == TokenKind::Identifier {
        match parse_identifier(s, toks, p, "variable name"@) {
            Ok((id, p2)) => Ok((ExprNodeView { expr: ExprView::VarUse(id), span: node_span(s, toks, start, p2) }, p2)),
            Err(f) => Err(f),
        }
    } else if kind == TokenKind::String {
        match consume(toks, p, TokenKind::String) {
            Ok(p2) => match unescape(s.subrange(first_char(toks, p) + 1, last_char(toks, p) - 1)) {
                Ok(t) => Ok(
                    (
                        ExprNodeView { expr: ExprView::Literal(ValueView::Str(t)), span: node_span(s, toks, start, p2) },
                        p2,
                    ),
                ),
                Err(m) => Err(ParseFailure::Message(m)),
            },
            Err(f) => Err(f),
        }
    } else if kind == TokenKind::Integer {
        match consume(toks, p, TokenKind::Integer) {
            Ok(p2) => {
                let v = decimal_value(lexeme_at(s, toks, p));
                if v <= i64::MAX {
                    Ok(
                        (
                            ExprNodeView {
                                expr: ExprView::Literal(ValueView::Int(v as i64)),
                                span: node_span(s, toks, start, p2),
                            },
                            p2,
                        ),
                    )
                } else {
                    Err(ParseFailure::Message("number too large to fit in target type"@))
                }
            },
            Err(f) => Err(f),
        }
    } else if kind == TokenKind::True || kind == TokenKind::False {
        match consume(toks, p, kind) {
            Ok(p2) => Ok(
                (
                    ExprNodeView {
                        expr: ExprView::Literal(ValueView::Boolean(kind == TokenKind::True)),
                        span: node_span(s, toks, start, p2),
                    },
                    p2,
                ),
            ),
            Err(f) => Err(f),
        }
    } else {
        Err(
            ParseFailure::AtToken(
                "Unexpected token: \u{201c}"@ + lexeme_at(s, toks, p) + "\u{201d} ("@ + token_name(kind) + ")"@,
                p,
                "expected primary expression here"@,
            ),
        )
    }
}

/// The operator a token stands for at a precedence level (0: equality, 1: comparison,
/// 2: addition, 3: multiplication).
pub open spec fn binary_operator(level: int, kind: TokenKind) -> Option<BinaryOperator> {
    if level == 0 {
        if kind == TokenKind::EqualsEquals {
            Some(BinaryOperator::Equals)
        } else if kind == TokenKind::NotEquals {
            Some(BinaryOperator::NotEquals)
        } else {
            None
        }
    } else if level == 1 {
        if kind == TokenKind::LessThan {
            Some(BinaryOperator::LessThan)
        } else if kind == TokenKind::LessThanEquals {
            Some(BinaryOperator::LessThanOrEqual)
        } else if kind == TokenKind::GreaterThan {
            Some(BinaryOperator::GreaterThan)
        } else if kind == TokenKind::GreaterThanEquals {
            Some(BinaryOperator::GreaterThanOrEqual)
        } else {
            None
        }
    } else if level == 2 {
        if kind == TokenKind::Plus {
            Some(BinaryOperator::Add)
        } else if kind == TokenKind::Minus {
            Some(BinaryOperator::Subtract)
        } else {
            None
        }
    } else {
        if kind == TokenKind::Star {
            Some(BinaryOperator::Multiply)
        } else if kind == TokenKind::Slash {
            Some(BinaryOperator::Divide)
        } else {
            None
        }
    }
}

/// A primary expression, possibly called with no argument or one argument in parentheses.
pub open spec fn parse_call(s: Seq<char>, toks: Seq<Lexeme>, p: int) -> Parsed<ExprNodeView>
    decreases toks.len() - p, 2int,
{
    let start = start_at(s, toks, p);
    match parse_primary(s, toks, p) {
        Err(f) => Err(f),
        Ok((e, p1)) => if kind_at(toks, p1) != TokenKind::ParenOpen {
            Ok((e, p1))
        } else {
            match consume(toks, p1, TokenKind::ParenOpen) {
                Err(f) => Err(f),
                Ok(p2) => if kind_at(toks, p2) == TokenKind::ParenClose {
                    match consume(toks, p2, TokenKind::ParenClose) {
                        Err(f) => Err(f),
                        Ok(p3) => Ok(
                            (
                                ExprNodeView {
                                    expr: ExprView::Call(Box::new(e), seq![]),
                                    span: node_span(s, toks, start, p3),
                                },
                                p3,
                            ),
                        ),
                    }
                } else if p < p2 <= toks.len() {
                    match parse_expression(s, toks, p2) {
                        Err(f) => Err(f),
                        Ok((arg, p3)) => match consume(toks, p3, TokenKind::ParenClose) {
                            Err(f) => Err(f),
                            Ok(p4) => Ok(
                                (
                                    ExprNodeView {
                                        expr: ExprView::Call(Box::new(e), seq![arg]),
                                        span: node_span(s, toks, start, p4),
                                    },
                                    p4,
                                ),
                            ),
                        },
                    }
                } else {
                    Err(ParseFailure::Message(seq![]))
                },
            }
        },
    }
}

/// An operand of the operators of `level`: an expression of the next level.
pub open spec fn parse_operand(s: Seq<char>, toks: Seq<Lexeme>, level: int, p: int) -> Parsed<ExprNodeView>
    decreases toks.len() - p, 9 - 2 * level,
{
    if level == 3 {
        parse_call(s, toks, p)
    } else if 0 <= level < 3 {
        parse_binary(s, toks, level + 1, p)
    } else {
        Err(ParseFailure::Message(seq![]))
    }
}

/// Operands joined, from the left, by operators of `level`.
pub open spec fn parse_binary(s: Seq<char>, toks: Seq<Lexeme>, level: int, p: int) -> Parsed<ExprNodeView>
    decreases toks.len() - p, 10 - 2 * level,
{
    if level < 0 || level > 3 {
        Err(ParseFailure::Message(seq![]))
    } else {
        let start = start_at(s, toks, p);
        match parse_operand(s, toks, level, p) {
            Err(f) => Err(f),
            Ok((left, p1)) => if p < p1 <= toks.len() {
                parse_binary_rest(s, toks, level, start, left, p1)
            } else {
                Err(ParseFailure::Message(seq![]))
            },
        }
    }
}

/// Further operators of `level` after the operand `left`, which started at byte `start`.
pub open spec fn parse_binary_rest(
    s: Seq<char>,
    toks: Seq<Lexeme>,
    level: int,
    start: usize,
    left: ExprNodeView,
    p: int,
) -> Parsed<ExprNodeView>
    decreases toks.len() - p, 0int,
{
    if !(0 <= level <= 3) {
        Err(ParseFailure::Message(seq![]))
    } else {
        match binary_operator(level, kind_at(toks, p)) {
            None => Ok((left, p)),
            Some(op) => match advance_to(toks, p) {
                Err(f) => Err(f),
                Ok(p2) => if p < p2 <= toks.len() {
                    match parse_operand(s, toks, level, p2) {
                        Err(f) => Err(f),
                        Ok((right, p3)) => if p < p3 <= toks.len() {
                            parse_binary_rest(
                                s,
                                toks,
                                level,
                                start,
                                ExprNodeView {
                                    expr: ExprView::Binary(Box::new(left), op, Box::new(right)),
                                    span: node_span(s, toks, start, p3),
                                },
                                p3,
                            )
                        } else {
                            Err(ParseFailure::Message(seq![]))
                        },
                    }
                } else {
                    Err(ParseFailure::Message(seq![]))
                },
            },
        }
    }
}

proof fn lemma_binary_stops(s: Seq<char>, toks: Seq<Lexeme>, level: int, p: int)
    requires
        0 <= level <= 3,
    ensures
        parse_binary(s, toks, level, p) matches Ok((e, p2)) ==> forall|l: int|
            level <= l <= 3 ==> #[trigger] binary_operator(l, kind_at(toks, p2)) is None,
    decreases toks.len() - p, 10 - 2 * level, 1int,
{
    if let Ok((left, p1)) = parse_operand(s, toks, level, p) {
        if p < p1 <= toks.len() {
            if level < 3 {
                lemma_binary_stops(s, toks, level + 1, p);
            }
            lemma_rest_stops(s, toks, level, start_at(s, toks, p), left, p1);
        }
    }
}

proof fn lemma_rest_stops(s: Seq<char>, toks: Seq<Lexeme>, level: int, start: usize, left: ExprNodeView, p: int)
    requires
        0 <= level <= 3,
        forall|l: int| level < l <= 3 ==> #[trigger] binary_operator(l, kind_at(toks, p)) is None,
    ensures
        parse_binary_rest(s, toks, level, start, left, p) matches Ok((e, p2)) ==> forall|l: int|
            level <= l <= 3 ==> #[trigger] binary_operator(l, kind_at(toks, p2)) is None,
    decreases toks.len() - p, 0int,
{
    if let Some(op) = binary_operator(level, kind_at(toks, p)) {
        if let Ok(p2) = advance_to(toks, p) {
            if p < p2 <= toks.len() {
                if let Ok((right, p3)) = parse_operand(s, toks, level, p2) {
                    if p < p3 <= toks.len() {
                        if level < 3 {
                            lemma_binary_stops(s, toks, level + 1, p2);
                        }
                        lemma_rest_stops(
                            s,
                            toks,
                            level,
                            start,
                            ExprNodeView {
                                expr: ExprView::Binary(Box::new(left), op, Box::new(right)),
                                span: node_span(s, toks, start, p3),
                            },
                            p3,
                        );
                    }
                }
            }
        }
    }
}

/// Binary operators chain: parsing operands joined by operators of `level` goes on for as
/// long as another operator of `level` or of a tighter level follows, so a parsed
/// expression is never followed by such an operator (`1+2+3` is one sum, not `1+2` then
/// a stray `+`). An expression as a whole is followed by no binary operator of any level.
pub proof fn law_binary_chain_is_consumed(s: Seq<char>, toks: Seq<Lexeme>, level: int, p: int)
    requires
        0 <= level <= 3,
    ensures
        parse_binary(s, toks, level, p) matches Ok((e, p2)) ==> forall|l: int|
            level <= l <= 3 ==> #[trigger] binary_operator(l, kind_at(toks, p2)) is None,
        parse_expression(s, toks, p) matches Ok((e, p2)) ==> forall|l: int|
            0 <= l <= 3 ==> #[trigger] binary_operator(l, kind_at(toks, p2)) is None,
{
    lemma_binary_stops(s, toks, level, p);
    lemma_binary_stops(s, toks, 0, p);
}

/// An expression.
pub open spec fn parse_expression(s: Seq<char>, toks: Seq<Lexeme>, p: int) -> Parsed<ExprNodeView>
    decreases toks.len() - p, 11int,
{
    parse_binary(s, toks, 0, p)
}

/// Annotations `@name` in front of a function definition.
pub open spec fn parse_annotations(s: Seq<char>, toks: Seq<Lexeme>, p: int) -> Parsed<Seq<IdentView>>
    decreases toks.len() - p,
{
    if kind_at(toks, p) != TokenKind::At {
        Ok((seq![], p))
    } else {
        match consume(toks, p, TokenKind::At) {
            Err(f) => Err(f),
            Ok(p2) => match parse_identifier(s, toks, p2, "annotation"@) {
                Err(f) => Err(f),
                Ok((a, p3)) => if p < p3 <= toks.len() {
                    match parse_annotations(s, toks, p3) {
                        Err(f) => Err(f),
                        Ok((rest, p4)) => Ok((seq![a] + rest, p4)),
                    }
                } else {
                    Err(ParseFailure::Message(seq![]))
                },
            },
        }
    }
}

/// A statement: a function definition, or an expression followed by `;`.
pub open spec fn parse_statement(s: Seq<char>, toks: Seq<Lexeme>, p: int) -> Parsed<StmtNodeView>
    decreases toks.len() - p, 12int,
{
    let kind = kind_at(toks, p);
    if kind == TokenKind::Fun || kind == TokenKind::At {
        parse_function_definition(s, toks, p)
    } else {
        let start = start_at(s, toks, p);
        match parse_expression(s, toks, p) {
            Err(f) => Err(f),
            Ok((e, p1)) => match consume(toks, p1, TokenKind::Semicolon) {
                Err(f) => Err(f),
                Ok(p2) => Ok(
                    (StmtNodeView { stmt: StmtView::Expression(e), span: node_span(s, toks, start, p1) }, p2),
                ),
            },
        }
    }
}

/// The statements of a block, up to its closing brace.
pub open spec fn parse_block(s: Seq<char>, toks: Seq<Lexeme>, p: int) -> Parsed<Seq<StmtNodeView>>
    decreases toks.len() - p, 13int,
{
    if kind_at(toks, p) == TokenKind::BraceClose {
        Ok((seq![], p))
    } else {
        match parse_statement(s, toks, p) {
            Err(f) => Err(f),
            Ok((st, p2)) => if p < p2 <= toks.len() {
                match parse_block(s, toks, p2) {
                    Err(f) => Err(f),
                    Ok((rest, p3)) => Ok((seq![st] + rest, p3)),
                }
            } else {
                Err(ParseFailure::Message(seq![]))
            },
        }
    }
}

/// `@annotations fun name() { statements }`.
pub open spec fn parse_function_definition(s: Seq<char>, toks: Seq<Lexeme>, p: int) -> Parsed<StmtNodeView>
    decreases toks.len() - p, 1int,
{
    let start = start_at(s, toks, p);
    match parse_annotations(s, toks, p) {
        Err(f) => Err(f),
        Ok((annotations, p1)) => match consume(toks, p1, TokenKind::Fun) {
            Err(f) => Err(f),
            Ok(p2) => match parse_identifier(s, toks, p2, "function name"@) {
                Err(f) => Err(f),
                Ok((name, p3)) => match consume(toks, p3, TokenKind::ParenOpen) {
                    Err(f) => Err(f),
                    Ok(p4) => match consume(toks, p4, TokenKind::ParenClose) {
                        Err(f) => Err(f),
                        Ok(p5) => match consume(toks, p5, TokenKind::BraceOpen) {
                            Err(f) => Err(f),
                            Ok(p6) => if p < p6 <= toks.len() {
                                match parse_block(s, toks, p6) {
                                    Err(f) => Err(f),
                                    Ok((statements, p7)) => match consume(toks, p7, TokenKind::BraceClose) {
                                        Err(f) => Err(f),
                                        Ok(p8) => {
                                            let span = node_span(s, toks, start, p8);
                                            let fun = FunView {
                                                name,
                                                annotations,
                                                parameters: seq![],
                                                statements,
                                            };
                                            Ok(
                                                (
                                                    StmtNodeView {
                                                        stmt: StmtView::FunctionDefinition(fun, span),
                                                        span,
                                                    },
                                                    p8,
                                                ),
                                            )
                                        },
                                    },
                                }
                            } else {
                                Err(ParseFailure::Message(seq![]))
                            },
                        },
                    },
                },
            },
        },
    }
}

/// The statements of a script, up to the end of the file.
pub open spec fn parse_script_statements(s: Seq<char>, toks: Seq<Lexeme>, p: int) -> Parsed<Seq<StmtNodeView>>
    decreases toks.len() - p, 13int,
{
    if kind_at(toks, p) == TokenKind::EndOfFile {
        Ok((seq![], p))
    } else {
        match parse_statement(s, toks, p) {
            Err(f) => Err(f),
            Ok((st, p2)) => if p < p2 <= toks.len() {
                match parse_script_statements(s, toks, p2) {
                    Err(f) => Err(f),
                    Ok((rest, p3)) => Ok((seq![st] + rest, p3)),
                }
            } else {
                Err(ParseFailure::Message(seq![]))
            },
        }
    }
}

/// A whole text as a script: its statements and its span.
pub open spec fn parse_text(s: Seq<char>) -> Result<(Seq<StmtNodeView>, SourceSpan), ParseFailure> {
    let toks = tokens_of(s);
    if toks.len() == 0 {
        Err(ParseFailure::Message("Expected at least EOF"@))
    } else {
        match toks[0] {
            Lexeme::Token(..) | Lexeme::EndOfInput(_) => match parse_script_statements(s, toks, 0) {
                Err(f) => Err(f),
                Ok((statements, p)) => Ok((statements, node_span(s, toks, 0, p))),
            },
            f => Err(ParseFailure::Lex(f)),
        }
    }
}


/// A parse of the rest of a list, with the items `done` put in front.
pub open spec fn prepend<T>(done: Seq<T>, r: Parsed<Seq<T>>) -> Parsed<Seq<T>> {
    match r {
        Ok((rest, p)) => Ok((done + rest, p)),
        Err(f) => Err(f),
    }
}

proof fn lemma_prepend_twice<T>(a: Seq<T>, b: Seq<T>, r: Parsed<Seq<T>>)
    ensures
        prepend(a, prepend(b, r)) == prepend(a + b, r),
{
    if let Ok((rest, p)) = r {
        assert(a + (b + rest) =~= (a + b) + rest);
    }
}

proof fn lemma_prepend_nothing<T>(r: Parsed<Seq<T>>)
    ensures
        prepend(seq![], r) == r,
{
    if let Ok((rest, p)) = r {
        assert(seq![] + rest =~= rest);
    }
}


// ---- the parser ----

/// The error that reports a parse failure in `file`.
pub open spec fn failure_error(file: SourceFile, f: ParseFailure, e: EffyError) -> bool {
    match f {
        ParseFailure::Lex(l) => lexeme_item(file, l, Err(e)),
        ParseFailure::AtToken(message, p, label) => is_whole_file_error(
            e,
            file,
            message,
            token_span_at(file.text(), tokens_of(file.text()), p),
            label,
        ),
        ParseFailure::Message(m) => e matches EffyError::Message(x) && x@ == m,
    }
}

/// Reads the tokens of a source file one at a time and builds syntax trees from them.
struct Parser<'source> {
    source: &'source SourceFile,
    current_token: Token,
    last_position: usize,
    tokens: Tokenizer<'source>,
    /// The index, among the tokens of the text, of the current token.
    pos: Ghost<int>,
}

impl<'source> Parser<'source> {
    spec fn text(&self) -> Seq<char> {
        self.source.text()
    }

    spec fn toks(&self) -> Seq<Lexeme> {
        tokens_of(self.source.text())
    }

    spec fn inv(&self) -> bool {
        let s = self.text();
        let toks = self.toks();
        let p = self.pos@;
        &&& self.tokens.wf()
        &&& self.tokens.spec_file() == self.source
        &&& 0 <= p < toks.len()
        &&& (toks[p] is Token || toks[p] is EndOfInput)
        &&& self.current_token.spec_kind() == kind_at(toks, p)
        &&& self.current_token.spec_span() == token_span_at(s, toks, p)
        &&& token_stream(s, self.tokens.spec_index(), self.tokens.spec_state()) == toks.skip(p + 1)
        &&& self.last_position == last_end(s, toks, p)
        &&& byte_len(s) < usize::MAX
        &&& forall|i: int| 0 <= i < toks.len() ==> lexeme_wf(s, #[trigger] toks[i])
    }

    /// The token at `p` lies on character boundaries, in order.
    proof fn lemma_token_bounds(&self, p: int)
        requires
            self.inv(),
            0 <= p < self.toks().len(),
            self.toks()[p] is Token || self.toks()[p] is EndOfInput,
        ensures
            0 <= first_char(self.toks(), p) <= last_char(self.toks(), p) <= self.text().len(),
            span_in_text(token_span_at(self.text(), self.toks(), p), self.text()),
            token_span_at(self.text(), self.toks(), p).range.start == byte_offset(self.text(), first_char(self.toks(), p)),
            token_span_at(self.text(), self.toks(), p).range.end == byte_offset(self.text(), last_char(self.toks(), p)),
            char_index(self.text(), byte_offset(self.text(), first_char(self.toks(), p)) as int) == first_char(
                self.toks(),
                p,
            ),
            char_index(self.text(), byte_offset(self.text(), last_char(self.toks(), p)) as int) == last_char(
                self.toks(),
                p,
            ),
    {
        let s = self.text();
        let toks = self.toks();
        assert(lexeme_wf(s, toks[p]));
        let a = first_char(toks, p);
        let b = last_char(toks, p);
        lemma_char_index(s, a);
        lemma_char_index(s, b);
        lemma_byte_offset_monotone(s, a, b);
        lemma_byte_offset_monotone(s, b, s.len() as int);
    }

    fn new(source: &'source SourceFile) -> (r: Result<Self, EffyError>)
        ensures
            ({
                let s = source.text();
                let toks = tokens_of(s);
                &&& toks.len() > 0
                &&& (toks[0] is Token || toks[0] is EndOfInput) ==> (r matches Ok(parser) && parser.inv()
                    && parser.pos@ == 0 && parser.source == source)
                &&& !(toks[0] is Token || toks[0] is EndOfInput) ==> (r matches Err(e) && failure_error(
                    *source,
                    ParseFailure::Lex(toks[0]),
                    e,
                ))
            }),
    {
        let ghost s = source.text();
        let _ = source.byte_len();
        let mut tokens = tokenize(source);
        proof {
            lemma_stream_step(s, 0, state_at(s, 0));
            lemma_stream_wf(s, 0, state_at(s, 0));
        }
        let ghost toks = tokens_of(s);
        let current_token = match tokens.next_token() {
            Some(Ok(token)) => token,
            Some(Err(e)) => {
                return Err(e);
            },
            None => {
                return Err(EffyError::message("Expected at least EOF"));
            },
        };
        proof {
            let (k2, st2, found) = next_step(s, 0, state_at(s, 0));
            if found->0 is EndOfInput {
                assert(toks =~= seq![found->0]);
                assert(token_stream(s, k2, st2) =~= toks.skip(1));
            } else {
                assert(toks.skip(1) =~= token_stream(s, k2, st2));
            }
        }
        Ok(Parser { source, current_token, tokens, last_position: 0, pos: Ghost(0) })
    }

    /// Moves to the next token and gives back the one moved past.
    fn advance(&mut self) -> (r: Result<Token, EffyError>)
        requires
            old(self).inv(),
        ensures
            final(self).source == old(self).source,
            match advance_to(old(self).toks(), old(self).pos@) {
                Ok(p2) => r matches Ok(t) && t == old(self).current_token && final(self).inv() && final(self).pos@
                    == p2,
                Err(f) => r matches Err(e) && failure_error(*old(self).source, f, e),
            },
    {
        let ghost s = self.text();
        let ghost toks = self.toks();
        let ghost p = self.pos@;
        let ghost k = self.tokens.spec_index();
        let ghost st = self.tokens.spec_state();
        proof {
            self.tokens.lemma_wf();
            lemma_stream_step(s, k, st);
            self.lemma_token_bounds(p);
        }
        self.last_position = self.current_token.span().end();
        let token = match self.tokens.next_token() {
            Some(Ok(token)) => token,
            Some(Err(e)) => {
                assert(toks[p + 1] == toks.skip(p + 1)[0]);
                return Err(e);
            },
            None => {
                assert(toks.skip(p + 1).len() == 0);
                return Err(EffyError::message("No more token in source file, expected at least EOF"));
            },
        };
        let previous = self.current_token.clone();
        self.current_token = token;
        self.pos = Ghost(p + 1);
        proof {
            let (k2, st2, found) = next_step(s, k, st);
            assert(toks[p + 1] == toks.skip(p + 1)[0]);
            if found->0 is EndOfInput {
                assert(toks.skip(p + 1) =~= seq![found->0]);
                assert(token_stream(s, k2, st2) =~= toks.skip(p + 2));
            } else {
                assert(toks.skip(p + 2) =~= toks.skip(p + 1).skip(1));
            }
            assert(lexeme_item(*self.source, toks[p + 1], Ok(self.current_token)));
            assert(self.current_token.spec_kind() == kind_at(toks, p + 1));
            assert(self.current_token.spec_span() == token_span_at(s, toks, p + 1));
            assert(self.last_position == last_end(s, toks, p + 1));
            assert(token_stream(s, self.tokens.spec_index(), self.tokens.spec_state()) == toks.skip(p + 2));
        }
        Ok(previous)
    }

    /// The error about the current token.
    fn create_token_error(&self, error_message: String, token_label: String) -> (r: EffyError)
        requires
            self.inv(),
        ensures
            failure_error(
                *self.source,
                ParseFailure::AtToken(error_message@, self.pos@, token_label@),
                r,
            ),
    {
        proof {
            self.lemma_token_bounds(self.pos@);
        }
        whole_file_error(self.source, error_message, self.current_token.span().clone(), token_label)
    }

    /// Takes the current token, which must be of `token_kind`.
    fn consume(&mut self, token_kind: TokenKind) -> (r: Result<Token, EffyError>)
        requires
            old(self).inv(),
        ensures
            final(self).source == old(self).source,
            match consume(old(self).toks(), old(self).pos@, token_kind) {
                Ok(p2) => r matches Ok(t) && t == old(self).current_token && final(self).inv() && final(self).pos@
                    == p2,
                Err(f) => r matches Err(e) && failure_error(*old(self).source, f, e),
            },            kind_at(old(self).toks(), old(self).pos@) != token_kind ==> *final(self) == *old(self),
    {
        let current = self.current_token.kind();
        if current != token_kind {
            let mut message = "Unexpected token: ".to_owned();
            push_str(&mut message, current.token_name());
            push_str(&mut message, ", expected ");
            push_str(&mut message, token_kind.as_str());
            let mut label = "expected ".to_owned();
            push_str(&mut label, token_kind.as_str());
            push_str(&mut label, " here");
            return Err(self.create_token_error(message, label));
        }
        self.advance()
    }

    /// Takes the current token, which must be of `token_kind`, playing `expected_role`.
    fn consume_with_role(&mut self, token_kind: TokenKind, expected_role: &str) -> (r: Result<Token, EffyError>)
        requires
            old(self).inv(),
        ensures
            final(self).source == old(self).source,
            match consume_role(old(self).toks(), old(self).pos@, token_kind, expected_role@) {
                Ok(p2) => r matches Ok(t) && t == old(self).current_token && final(self).inv() && final(self).pos@
                    == p2,
                Err(f) => r matches Err(e) && failure_error(*old(self).source, f, e),
            },            kind_at(old(self).toks(), old(self).pos@) != token_kind ==> *final(self) == *old(self),
    {
        let current = self.current_token.kind();
        if current != token_kind {
            let mut message = "Unexpected token: ".to_owned();
            push_str(&mut message, current.token_name());
            push_str(&mut message, ", expected ");
            push_str(&mut message, expected_role);
            push_str(&mut message, " (");
            push_str(&mut message, token_kind.as_str());
            push_str(&mut message, ")");
            let mut label = "expected ".to_owned();
            push_str(&mut label, expected_role);
            push_str(&mut label, " (");
            push_str(&mut label, token_kind.as_str());
            push_str(&mut label, ") here");
            return Err(self.create_token_error(message, label));
        }
        self.advance()
    }

    /// The byte offset where the current token starts.
    fn current_position(&self) -> (r: usize)
        requires
            self.inv(),
        ensures
            r == start_at(self.text(), self.toks(), self.pos@),
    {
        self.current_token.span().start()
    }

    /// The characters of a token of the text.
    fn lexeme(&self, token: &Token, p: Ghost<int>) -> (r: String)
        requires
            self.inv(),
            0 <= p@ < self.toks().len(),
            self.toks()[p@] is Token || self.toks()[p@] is EndOfInput,
            token.spec_span() == token_span_at(self.text(), self.toks(), p@),
        ensures
            r@ == lexeme_at(self.text(), self.toks(), p@),
    {
        proof {
            self.lemma_token_bounds(p@);
        }
        token.lexeme(self.source)
    }

    /// The span from `start` to the end of the last token taken.
    fn create_span(&self, start_position: usize) -> (r: SourceSpan)
        requires
            self.inv(),
        ensures
            r == node_span(self.text(), self.toks(), start_position, self.pos@),
    {
        SourceSpan::new(Range { start: start_position, end: self.last_position })
    }

    /// An identifier playing `expected_identifier_role`.
    fn parse_identifier(&mut self, expected_identifier_role: &str) -> (r: Result<IdentifierNode, EffyError>)
        requires
            old(self).inv(),
        ensures
            final(self).source == old(self).source,
            match parse_identifier(old(self).text(), old(self).toks(), old(self).pos@, expected_identifier_role@) {
                Ok((v, p2)) => r matches Ok(n) && ident_view(n) == v && final(self).inv() && final(self).pos@ == p2,
                Err(f) => r matches Err(e) && failure_error(*old(self).source, f, e),
            },
    {
        let ghost p = self.pos@;
        let start_position = self.current_position();
        let name = self.consume_with_role(TokenKind::Identifier, expected_identifier_role)?;
        let lexeme = self.lexeme(&name, Ghost(p));
        let span = self.create_span(start_position);
        Ok(AstNode::new(Identifier::new(lexeme.as_str()), span))
    }

    /// A variable, a string literal or an integer literal.
    fn parse_primary_expression(&mut self) -> (r: Result<ExpressionNode, EffyError>)
        requires
            old(self).inv(),
        ensures
            final(self).source == old(self).source,
            match parse_primary(old(self).text(), old(self).toks(), old(self).pos@) {
                Ok((v, p2)) => r matches Ok(n) && expr_view(n) == v && final(self).inv() && final(self).pos@ == p2,
                Err(f) => r matches Err(e) && failure_error(*old(self).source, f, e),
            },
    {
        let ghost s = self.text();
        let ghost toks = self.toks();
        let ghost p = self.pos@;
        let start_position = self.current_position();
        proof {
            self.lemma_token_bounds(p);
        }
        match self.current_token.kind() {
            TokenKind::Identifier => {
                let name = match self.parse_identifier("variable name") {
                    Ok(n) => n,
                    Err(e) => {
                        return Err(e);
                    },
                };
                let span = self.create_span(start_position);
                Ok(AstNode::new(Expression::var_use(name), span))
            },
            TokenKind::String => {
                let token = match self.consume(TokenKind::String) {
                    Ok(t) => t,
                    Err(e) => {
                        return Err(e);
                    },
                };
                let lexeme = self.lexeme(&token, Ghost(p));
                proof {
                    assert(lexeme_wf(s, toks[p]));
                    assert(lexeme@.subrange(1, lexeme@.len() - 1) =~= s.subrange(
                        first_char(toks, p) + 1,
                        last_char(toks, p) - 1,
                    ));
                }
                let value = match extract_string_from_lexeme(lexeme.as_str()) {
                    Ok(v) => v,
                    Err(e) => {
                        return Err(e);
                    },
                };
                let span = self.create_span(start_position);
                Ok(AstNode::new(Expression::literal(value), span))
            },
            TokenKind::Integer => {
                let token = match self.consume(TokenKind::Integer) {
                    Ok(t) => t,
                    Err(e) => {
                        return Err(e);
                    },
                };
                let lexeme = self.lexeme(&token, Ghost(p));
                let digits = chars_of(lexeme.as_str());
                proof {
                    assert(lexeme_wf(s, toks[p]));
                    assert(digits@.subrange(0, digits@.len() as int) =~= digits@);
                    assert forall|i: int| 0 <= i < digits@.len() implies '0' <= #[trigger] digits@[i] <= '9' by {
                        assert(digits@[i] == s[first_char(toks, p) + i]);
                    }
                }
                let value = match parse_decimal(&digits, 0, digits.len()) {
                    Ok(v) => v,
                    Err(e) => {
                        return Err(e);
                    },
                };
                let span = self.create_span(start_position);
                Ok(AstNode::new(Expression::literal(Value::Int(value)), span))
            },
            TokenKind::True | TokenKind::False => {
                let kind = self.current_token.kind();
                match self.consume(kind) {
                    Ok(_) => {},
                    Err(e) => {
                        return Err(e);
                    },
                }
                let span = self.create_span(start_position);
                Ok(AstNode::new(Expression::literal(Value::Boolean(kind == TokenKind::True)), span))
            },
            _ => {
                let kind = self.current_token.kind();
                let lexeme = self.lexeme(&self.current_token, Ghost(p));
                let mut message = "Unexpected token: \u{201c}".to_owned();
                push_str(&mut message, lexeme.as_str());
                push_str(&mut message, "\u{201d} (");
                push_str(&mut message, kind.token_name());
                push_str(&mut message, ")");
                Err(self.create_token_error(message, "expected primary expression here".to_owned()))
            },
        }
    }

    /// The measure that parsing lowers: the tokens left.
    spec fn left(&self) -> int {
        self.toks().len() - self.pos@
    }

    /// A primary expression, possibly called with one argument in parentheses.
    fn parse_call(&mut self) -> (r: Result<ExpressionNode, EffyError>)
        requires
            old(self).inv(),
        ensures
            final(self).source == old(self).source,
            match parse_call(old(self).text(), old(self).toks(), old(self).pos@) {
                Ok((v, p2)) => r matches Ok(n) && expr_view(n) == v && final(self).inv() && final(self).pos@ == p2,
                Err(f) => r matches Err(e) && failure_error(*old(self).source, f, e),
            },
        decreases old(self).left(), 2int,
    {
        let ghost p = self.pos@;
        let start_position = self.current_position();
        let expr = match self.parse_primary_expression() {
            Ok(e) => e,
            Err(e) => {
                return Err(e);
            },
        };
        if self.current_token.kind() != TokenKind::ParenOpen {
            return Ok(expr);
        }
        match self.consume(TokenKind::ParenOpen) {
            Ok(_) => {},
            Err(e) => {
                return Err(e);
            },
        }
        if self.current_token.kind() == TokenKind::ParenClose {
            match self.consume(TokenKind::ParenClose) {
                Ok(_) => {},
                Err(e) => {
                    return Err(e);
                },
            }
            let span = self.create_span(start_position);
            let arguments: Vec<ExpressionNode> = Vec::new();
            proof {
                lemma_expr_views(arguments, 0);
                assert(arguments@.subrange(0, 0) =~= Seq::<ExpressionNode>::empty());
            }
            return Ok(AstNode::new(Expression::call(expr, arguments), span));
        }
        let argument = match self.parse_expression() {
            Ok(a) => a,
            Err(e) => {
                return Err(e);
            },
        };
        match self.consume(TokenKind::ParenClose) {
            Ok(_) => {},
            Err(e) => {
                return Err(e);
            },
        }
        let span = self.create_span(start_position);
        let arguments = vec![argument];
        proof {
            lemma_expr_views(arguments, 0);
            assert(arguments@.subrange(0, 1) =~= seq![argument]);
        }
        Ok(AstNode::new(Expression::call(expr, arguments), span))
    }

    /// The operator of `level` the current token stands for, if any.
    fn binary_operator_at(&self, level: u8) -> (r: Option<BinaryOperator>)
        requires
            self.inv(),
        ensures
            r == binary_operator(level as int, kind_at(self.toks(), self.pos@)),
    {
        let kind = self.current_token.kind();
        if level == 0 {
            match kind {
                TokenKind::EqualsEquals => Some(BinaryOperator::Equals),
                TokenKind::NotEquals => Some(BinaryOperator::NotEquals),
                _ => None,
            }
        } else if level == 1 {
            match kind {
                TokenKind::LessThan => Some(BinaryOperator::LessThan),
                TokenKind::LessThanEquals => Some(BinaryOperator::LessThanOrEqual),
                TokenKind::GreaterThan => Some(BinaryOperator::GreaterThan),
                TokenKind::GreaterThanEquals => Some(BinaryOperator::GreaterThanOrEqual),
                _ => None,
            }
        } else if level == 2 {
            match kind {
                TokenKind::Plus => Some(BinaryOperator::Add),
                TokenKind::Minus => Some(BinaryOperator::Subtract),
                _ => None,
            }
        } else {
            match kind {
                TokenKind::Star => Some(BinaryOperator::Multiply),
                TokenKind::Slash => Some(BinaryOperator::Divide),
                _ => None,
            }
        }
    }

    /// An operand of the operators of `level`.
    fn parse_operand(&mut self, level: u8) -> (r: Result<ExpressionNode, EffyError>)
        requires
            old(self).inv(),
            level <= 3,
        ensures
            final(self).source == old(self).source,
            match parse_operand(old(self).text(), old(self).toks(), level as int, old(self).pos@) {
                Ok((v, p2)) => r matches Ok(n) && expr_view(n) == v && final(self).inv() && final(self).pos@ == p2,
                Err(f) => r matches Err(e) && failure_error(*old(self).source, f, e),
            },
        decreases old(self).left(), 9 - 2 * level,
    {
        if level == 3 {
            self.parse_call()
        } else {
            self.parse_binary(level + 1)
        }
    }

    /// Operands joined, from the left, by operators of `level`.
    fn parse_binary(&mut self, level: u8) -> (r: Result<ExpressionNode, EffyError>)
        requires
            old(self).inv(),
            level <= 3,
        ensures
            final(self).source == old(self).source,
            match parse_binary(old(self).text(), old(self).toks(), level as int, old(self).pos@) {
                Ok((v, p2)) => r matches Ok(n) && expr_view(n) == v && final(self).inv() && final(self).pos@ == p2,
                Err(f) => r matches Err(e) && failure_error(*old(self).source, f, e),
            },
        decreases old(self).left(), 10 - 2 * level,
    {
        let ghost p = self.pos@;
        let start_position = self.current_position();
        let mut left = match self.parse_operand(level) {
            Ok(e) => e,
            Err(e) => {
                return Err(e);
            },
        };
        proof {
            lemma_operand_advances(self.text(), self.toks(), level as int, p);
        }
        loop
            invariant
                self.inv(),
                self.source == old(self).source,
                p == old(self).pos@,
                0 <= level <= 3,
                p < self.pos@ <= self.toks().len(),
                start_position == start_at(self.text(), self.toks(), p),
                parse_binary(self.text(), self.toks(), level as int, p) == parse_binary_rest(
                    self.text(),
                    self.toks(),
                    level as int,
                    start_position,
                    expr_view(left),
                    self.pos@,
                ),
            decreases self.left(),
        {
            let ghost q = self.pos@;
            let operator = match self.binary_operator_at(level) {
                Some(op) => op,
                None => {
                    return Ok(left);
                },
            };
            match self.advance() {
                Ok(_) => {},
                Err(e) => {
                    return Err(e);
                },
            }
            let right = match self.parse_operand(level) {
                Ok(e) => e,
                Err(e) => {
                    return Err(e);
                },
            };
            proof {
                lemma_operand_advances(self.text(), self.toks(), level as int, q + 1);
            }
            let span = self.create_span(start_position);
            left = AstNode::new(Expression::binary(left, operator, right), span);
        }
    }

    /// An expression.
    fn parse_expression(&mut self) -> (r: Result<ExpressionNode, EffyError>)
        requires
            old(self).inv(),
        ensures
            final(self).source == old(self).source,
            match parse_expression(old(self).text(), old(self).toks(), old(self).pos@) {
                Ok((v, p2)) => r matches Ok(n) && expr_view(n) == v && final(self).inv() && final(self).pos@ == p2,
                Err(f) => r matches Err(e) && failure_error(*old(self).source, f, e),
            },
        decreases old(self).left(), 11int,
    {
        self.parse_binary(0)
    }

    /// An expression, as the statement it forms before its `;`.
    fn parse_expression_statement(&mut self) -> (r: Result<StatementNode, EffyError>)
        requires
            old(self).inv(),
        ensures
            final(self).source == old(self).source,
            match parse_expression(old(self).text(), old(self).toks(), old(self).pos@) {
                Ok((v, p2)) => r matches Ok(n) && stmt_view(n) == (StmtNodeView {
                    stmt: StmtView::Expression(v),
                    span: node_span(old(self).text(), old(self).toks(), start_at(old(self).text(), old(self).toks(), old(self).pos@), p2),
                }) && final(self).inv() && final(self).pos@ == p2,
                Err(f) => r matches Err(e) && failure_error(*old(self).source, f, e),
            },
    {
        let start_position = self.current_position();
        let expression = match self.parse_expression() {
            Ok(e) => e,
            Err(e) => {
                return Err(e);
            },
        };
        let span = self.create_span(start_position);
        Ok(AstNode::new(Statement::Expression(ExpressionStatement { expression }), span))
    }

    /// A statement: a function definition, or an expression followed by `;`.
    fn parse_statement(&mut self) -> (r: Result<StatementNode, EffyError>)
        requires
            old(self).inv(),
        ensures
            final(self).source == old(self).source,
            match parse_statement(old(self).text(), old(self).toks(), old(self).pos@) {
                Ok((v, p2)) => r matches Ok(n) && stmt_view(n) == v && final(self).inv() && final(self).pos@ == p2,
                Err(f) => r matches Err(e) && failure_error(*old(self).source, f, e),
            },
        decreases old(self).left(), 2int,
    {
        let kind = self.current_token.kind();
        if kind == TokenKind::Fun || kind == TokenKind::At {
            return self.parse_function_definition_statement();
        }
        let result = match self.parse_expression_statement() {
            Ok(st) => st,
            Err(e) => {
                return Err(e);
            },
        };
        match self.consume(TokenKind::Semicolon) {
            Ok(_) => {},
            Err(e) => {
                return Err(e);
            },
        }
        Ok(result)
    }

    /// Annotations `@name`, as long as the current token is `@`.
    fn parse_annotations(&mut self) -> (r: Result<Vec<IdentifierNode>, EffyError>)
        requires
            old(self).inv(),
        ensures
            final(self).source == old(self).source,
            match parse_annotations(old(self).text(), old(self).toks(), old(self).pos@) {
                Ok((v, p2)) => r matches Ok(a) && ident_views(a@) == v && final(self).inv() && final(self).pos@ == p2,
                Err(f) => r matches Err(e) && failure_error(*old(self).source, f, e),
            },
    {
        let mut annotations: Vec<IdentifierNode> = Vec::new();
        proof {
            lemma_prepend_nothing(parse_annotations(self.text(), self.toks(), self.pos@));
            assert(ident_views(annotations@) =~= seq![]);
        }
        while self.current_token.kind() == TokenKind::At
            invariant
                self.inv(),
                self.source == old(self).source,
                parse_annotations(self.text(), self.toks(), old(self).pos@) == prepend(
                    ident_views(annotations@),
                    parse_annotations(self.text(), self.toks(), self.pos@),
                ),
            decreases self.left(),
        {
            let ghost q = self.pos@;
            match self.consume(TokenKind::At) {
                Ok(_) => {},
                Err(e) => {
                    return Err(e);
                },
            }
            let annotation = match self.parse_identifier("annotation") {
                Ok(a) => a,
                Err(e) => {
                    return Err(e);
                },
            };
            proof {
                let done = ident_views(annotations@);
                lemma_prepend_twice(
                    done,
                    seq![ident_view(annotation)],
                    parse_annotations(self.text(), self.toks(), self.pos@),
                );
                assert(ident_views(annotations@.push(annotation)) =~= done + seq![ident_view(annotation)]);
            }
            annotations.push(annotation);
        }
        proof {
            assert(ident_views(annotations@) + seq![] =~= ident_views(annotations@));
        }
        Ok(annotations)
    }

    /// `@annotations fun name() { statements }`.
    fn parse_function_definition_statement(&mut self) -> (r: Result<StatementNode, EffyError>)
        requires
            old(self).inv(),
        ensures
            final(self).source == old(self).source,
            match parse_function_definition(old(self).text(), old(self).toks(), old(self).pos@) {
                Ok((v, p2)) => r matches Ok(n) && stmt_view(n) == v && final(self).inv() && final(self).pos@ == p2,
                Err(f) => r matches Err(e) && failure_error(*old(self).source, f, e),
            },
        decreases old(self).left(), 1int,
    {
        let ghost s = self.text();
        let ghost toks = self.toks();
        let ghost p = self.pos@;
        let start_position = self.current_position();
        proof {
            lemma_annotations_advances(s, toks, p);
        }
        let annotations = match self.parse_annotations() {
            Ok(a) => a,
            Err(e) => {
                return Err(e);
            },
        };
        match self.consume(TokenKind::Fun) {
            Ok(_) => {},
            Err(e) => {
                return Err(e);
            },
        }
        let name = match self.parse_identifier("function name") {
            Ok(n) => n,
            Err(e) => {
                return Err(e);
            },
        };
        match self.consume(TokenKind::ParenOpen) {
            Ok(_) => {},
            Err(e) => {
                return Err(e);
            },
        }
        match self.consume(TokenKind::ParenClose) {
            Ok(_) => {},
            Err(e) => {
                return Err(e);
            },
        }
        match self.consume(TokenKind::BraceOpen) {
            Ok(_) => {},
            Err(e) => {
                return Err(e);
            },
        }
        let ghost body = self.pos@;
        let mut statements: Vec<StatementNode> = Vec::new();
        proof {
            lemma_prepend_nothing(parse_block(s, toks, body));
            assert(statements@.map_values(|st: StatementNode| stmt_view(st)) =~= seq![]);
        }
        while self.current_token.kind() != TokenKind::BraceClose
            invariant
                self.inv(),
                self.source == old(self).source,
                s == self.text(),
                toks == self.toks(),
                p == old(self).pos@,
                p < body <= self.pos@,
                parse_block(s, toks, body) matches Err(f) ==> parse_function_definition(s, toks, p) == Err::<
                    (StmtNodeView, int),
                    ParseFailure,
                >(f),
                parse_block(s, toks, body) == prepend(
                    statements@.map_values(|st: StatementNode| stmt_view(st)),
                    parse_block(s, toks, self.pos@),
                ),
            decreases self.left(),
        {
            let ghost q = self.pos@;
            proof {
                lemma_statement_advances(s, toks, q);
            }
            let statement = match self.parse_statement() {
                Ok(st) => st,
                Err(e) => {
                    return Err(e);
                },
            };
            proof {
                let done = statements@.map_values(|st: StatementNode| stmt_view(st));
                lemma_prepend_twice(done, seq![stmt_view(statement)], parse_block(s, toks, self.pos@));
                assert(statements@.push(statement).map_values(|st: StatementNode| stmt_view(st)) =~= done + seq![
                    stmt_view(statement),
                ]);
            }
            statements.push(statement);
        }
        match self.consume(TokenKind::BraceClose) {
            Ok(_) => {},
            Err(e) => {
                return Err(e);
            },
        }
        let span = self.create_span(start_position);
        let parameters: Vec<IdentifierNode> = Vec::new();
        proof {
            lemma_stmt_views(statements, 0);
            assert(statements@.subrange(0, statements.len() as int) =~= statements@);
            assert(statements@.map_values(|st: StatementNode| stmt_view(st)) + seq![] =~= statements@.map_values(
                |st: StatementNode| stmt_view(st),
            ));
            assert(ident_views(parameters@) =~= seq![]);
        }
        let definition = FunctionDefinition::new(name, annotations, parameters, statements);
        let definition_node = AstNode::new(definition, span.clone());
        Ok(
            AstNode::new(
                Statement::FunctionDefinition(FunctionDefinitionStatement { function_definition: definition_node }),
                span,
            ),
        )
    }

    /// The statements of the script, up to the end of the file.
    fn parse_script(&mut self) -> (r: Result<ScriptNode, EffyError>)
        requires
            old(self).inv(),
            old(self).pos@ == 0,
        ensures
            match parse_script_statements(old(self).text(), old(self).toks(), 0) {
                Ok((v, p2)) => r matches Ok(n) && stmt_views(n.data.statements, 0) == v && n.span == node_span(
                    old(self).text(),
                    old(self).toks(),
                    0,
                    p2,
                ),
                Err(f) => r matches Err(e) && failure_error(*old(self).source, f, e),
            },
    {
        let ghost s = self.text();
        let ghost toks = self.toks();
        let start_position = self.last_position;
        let mut statements: Vec<StatementNode> = Vec::new();
        proof {
            lemma_prepend_nothing(parse_script_statements(s, toks, 0));
            assert(statements@.map_values(|st: StatementNode| stmt_view(st)) =~= seq![]);
        }
        while self.current_token.kind() != TokenKind::EndOfFile
            invariant
                self.inv(),
                self.source == old(self).source,
                s == self.text(),
                toks == self.toks(),
                start_position == 0,
                parse_script_statements(s, toks, 0) == prepend(
                    statements@.map_values(|st: StatementNode| stmt_view(st)),
                    parse_script_statements(s, toks, self.pos@),
                ),
            decreases self.left(),
        {
            let ghost q = self.pos@;
            proof {
                lemma_statement_advances(s, toks, q);
            }
            let statement = match self.parse_statement() {
                Ok(st) => st,
                Err(e) => {
                    return Err(e);
                },
            };
            proof {
                let done = statements@.map_values(|st: StatementNode| stmt_view(st));
                lemma_prepend_twice(done, seq![stmt_view(statement)], parse_script_statements(s, toks, self.pos@));
                assert(statements@.push(statement).map_values(|st: StatementNode| stmt_view(st)) =~= done + seq![
                    stmt_view(statement),
                ]);
            }
            statements.push(statement);
        }
        let span = self.create_span(start_position);
        proof {
            lemma_stmt_views(statements, 0);
            assert(statements@.subrange(0, statements.len() as int) =~= statements@);
            assert(statements@.map_values(|st: StatementNode| stmt_view(st)) + seq![] =~= statements@.map_values(
                |st: StatementNode| stmt_view(st),
            ));
        }
        Ok(AstNode::new(Script::new(statements), span))
    }
}

/// Reads a source file into the syntax tree of a script.
pub fn parse_script(script_source: &SourceFile) -> (r: Result<ScriptNode, EffyError>)
    ensures
        match parse_text(script_source.text()) {
            Ok((statements, span)) => r matches Ok(n) && stmt_views(n.data.statements, 0) == statements && n.span
                == span,
            Err(f) => r matches Err(e) && failure_error(*script_source, f, e),
        },
{
    let mut parser = match Parser::new(script_source) {
        Ok(parser) => parser,
        Err(e) => {
            return Err(e);
        },
    };
    parser.parse_script()
}

/// A successful parse of an expression takes at least one token and stops within the tokens.
pub proof fn lemma_call_advances(s: Seq<char>, toks: Seq<Lexeme>, p: int)
    requires
        0 <= p <= toks.len(),
    ensures
        parse_primary(s, toks, p) matches Ok((_, p2)) ==> p < p2 <= toks.len(),
        parse_call(s, toks, p) matches Ok((_, p2)) ==> p < p2 <= toks.len(),
    decreases toks.len() - p, 2int,
{
    if let Ok((e, p1)) = parse_primary(s, toks, p) {
        if kind_at(toks, p1) == TokenKind::ParenOpen {
            if let Ok(p2) = consume(toks, p1, TokenKind::ParenOpen) {
                if kind_at(toks, p2) != TokenKind::ParenClose {
                    lemma_expression_advances(s, toks, p2);
                }
            }
        }
    }
}

pub proof fn lemma_operand_advances(s: Seq<char>, toks: Seq<Lexeme>, level: int, p: int)
    requires
        0 <= p <= toks.len(),
        0 <= level <= 3,
    ensures
        parse_operand(s, toks, level, p) matches Ok((_, p2)) ==> p < p2 <= toks.len(),
    decreases toks.len() - p, 9 - 2 * level,
{
    if level == 3 {
        lemma_call_advances(s, toks, p);
    } else {
        lemma_binary_advances(s, toks, level + 1, p);
    }
}

pub proof fn lemma_binary_advances(s: Seq<char>, toks: Seq<Lexeme>, level: int, p: int)
    requires
        0 <= p <= toks.len(),
        0 <= level <= 3,
    ensures
        parse_binary(s, toks, level, p) matches Ok((_, p2)) ==> p < p2 <= toks.len(),
    decreases toks.len() - p, 10 - 2 * level,
{
    lemma_operand_advances(s, toks, level, p);
    if let Ok((left, p1)) = parse_operand(s, toks, level, p) {
        lemma_rest_advances(s, toks, level, start_at(s, toks, p), left, p1);
    }
}

pub proof fn lemma_rest_advances(s: Seq<char>, toks: Seq<Lexeme>, level: int, start: usize, left: ExprNodeView, p: int)
    requires
        0 <= p <= toks.len(),
        0 <= level <= 3,
    ensures
        parse_binary_rest(s, toks, level, start, left, p) matches Ok((_, p2)) ==> p <= p2 <= toks.len(),
    decreases toks.len() - p, 0int,
{
    if let Some(op) = binary_operator(level, kind_at(toks, p)) {
        if let Ok(p2) = advance_to(toks, p) {
            lemma_operand_advances(s, toks, level, p2);
            if let Ok((right, p3)) = parse_operand(s, toks, level, p2) {
                lemma_rest_advances(
                    s,
                    toks,
                    level,
                    start,
                    ExprNodeView {
                        expr: ExprView::Binary(Box::new(left), op, Box::new(right)),
                        span: node_span(s, toks, start, p3),
                    },
                    p3,
                );
            }
        }
    }
}

pub proof fn lemma_expression_advances(s: Seq<char>, toks: Seq<Lexeme>, p: int)
    requires
        0 <= p <= toks.len(),
    ensures
        parse_expression(s, toks, p) matches Ok((_, p2)) ==> p < p2 <= toks.len(),
    decreases toks.len() - p, 11int,
{
    lemma_binary_advances(s, toks, 0, p);
}

pub proof fn lemma_annotations_advances(s: Seq<char>, toks: Seq<Lexeme>, p: int)
    requires
        0 <= p <= toks.len(),
    ensures
        parse_annotations(s, toks, p) matches Ok((_, p2)) ==> p <= p2 <= toks.len(),
    decreases toks.len() - p,
{
    if kind_at(toks, p) == TokenKind::At {
        if let Ok(p2) = consume(toks, p, TokenKind::At) {
            if let Ok((a, p3)) = parse_identifier(s, toks, p2, "annotation"@) {
                if p < p3 <= toks.len() {
                    lemma_annotations_advances(s, toks, p3);
                }
            }
        }
    }
}

pub proof fn lemma_statement_advances(s: Seq<char>, toks: Seq<Lexeme>, p: int)
    requires
        0 <= p <= toks.len(),
    ensures
        parse_statement(s, toks, p) matches Ok((_, p2)) ==> p < p2 <= toks.len(),
    decreases toks.len() - p, 12int,
{
    let kind = kind_at(toks, p);
    if kind == TokenKind::Fun || kind == TokenKind::At {
        lemma_function_advances(s, toks, p);
    } else {
        lemma_expression_advances(s, toks, p);
    }
}

pub proof fn lemma_block_advances(s: Seq<char>, toks: Seq<Lexeme>, p: int)
    requires
        0 <= p <= toks.len(),
    ensures
        parse_block(s, toks, p) matches Ok((_, p2)) ==> p <= p2 <= toks.len(),
    decreases toks.len() - p, 13int,
{
    if kind_at(toks, p) != TokenKind::BraceClose {
        lemma_statement_advances(s, toks, p);
        if let Ok((st, p2)) = parse_statement(s, toks, p) {
            lemma_block_advances(s, toks, p2);
        }
    }
}

pub proof fn lemma_function_advances(s: Seq<char>, toks: Seq<Lexeme>, p: int)
    requires
        0 <= p <= toks.len(),
    ensures
        parse_function_definition(s, toks, p) matches Ok((_, p2)) ==> p < p2 <= toks.len(),
    decreases toks.len() - p, 1int,
{
    lemma_annotations_advances(s, toks, p);
    if let Ok((annotations, p1)) = parse_annotations(s, toks, p) {
        if let Ok(p2) = consume(toks, p1, TokenKind::Fun) {
            if let Ok((name, p3)) = parse_identifier(s, toks, p2, "function name"@) {
                if let Ok(p4) = consume(toks, p3, TokenKind::ParenOpen) {
                    if let Ok(p5) = consume(toks, p4, TokenKind::ParenClose) {
                        if let Ok(p6) = consume(toks, p5, TokenKind::BraceOpen) {
                            if p < p6 <= toks.len() {
                                lemma_block_advances(s, toks, p6);
                            }
                        }
                    }
                }
            }
        }
    }
}

// ---- where the nodes of a parse lie ----

/// Every span of an expression node lies on character boundaries of `s`, in order.
pub open spec fn expr_spans_in(e: ExprNodeView, s: Seq<char>) -> bool
    decreases e, 1int,
{
    &&& span_in_text(e.span, s)
    &&& match e.expr {
        ExprView::Call(callee, args) => expr_spans_in(*callee, s) && args_spans_in(args, 0, s),
        ExprView::VarUse(id) => span_in_text(id.span, s),
        ExprView::Literal(_) => true,
        ExprView::Binary(left, _, right) => expr_spans_in(*left, s) && expr_spans_in(*right, s),
    }
}

/// The spans of the arguments from index `i` on lie in `s`.
pub open spec fn args_spans_in(args: Seq<ExprNodeView>, i: int, s: Seq<char>) -> bool
    decreases args, args.len() - i,
{
    if 0 <= i < args.len() {
        expr_spans_in(args[i], s) && args_spans_in(args, i + 1, s)
    } else {
        true
    }
}

/// The spans of identifiers lie in `s`.
pub open spec fn idents_spans_in(ids: Seq<IdentView>, s: Seq<char>) -> bool {
    forall|i: int| 0 <= i < ids.len() ==> span_in_text(#[trigger] ids[i].span, s)
}

/// Every span of a statement node lies in `s`.
pub open spec fn stmt_spans_in(st: StmtNodeView, s: Seq<char>) -> bool
    decreases st, 1int,
{
    &&& span_in_text(st.span, s)
    &&& match st.stmt {
        StmtView::Expression(e) => expr_spans_in(e, s),
        StmtView::FunctionDefinition(f, span) => {
            &&& span_in_text(span, s)
            &&& span_in_text(f.name.span, s)
            &&& idents_spans_in(f.annotations, s)
            &&& idents_spans_in(f.parameters, s)
            &&& stmts_spans_in(f.statements, 0, s)
        },
    }
}

/// The spans of the statements from index `i` on lie in `s`.
pub open spec fn stmts_spans_in(stmts: Seq<StmtNodeView>, i: int, s: Seq<char>) -> bool
    decreases stmts, stmts.len() - i,
{
    if 0 <= i < stmts.len() {
        stmt_spans_in(stmts[i], s) && stmts_spans_in(stmts, i + 1, s)
    } else {
        true
    }
}

/// The tokens of `s` as parsing sees them: well formed, in order, with byte offsets that
/// fit in a `usize`.
pub open spec fn ordered_tokens(s: Seq<char>, toks: Seq<Lexeme>) -> bool {
    &&& byte_len(s) < usize::MAX
    &&& forall|i: int| 0 <= i < toks.len() ==> lexeme_wf(s, #[trigger] toks[i])
    &&& forall|i: int, j: int|
        0 <= i < j < toks.len() ==> lexeme_end(#[trigger] toks[i]) <= lexeme_start(#[trigger] toks[j])
}

/// Parsing stands at a token or at the end of the input.
pub open spec fn at_token(toks: Seq<Lexeme>, p: int) -> bool {
    0 <= p < toks.len() && (toks[p] is Token || toks[p] is EndOfInput)
}

/// The entry at `p` is a token.
pub open spec fn is_token(toks: Seq<Lexeme>, p: int) -> bool {
    0 <= p < toks.len() && toks[p] is Token
}

proof fn lemma_tokens_ordered(s: Seq<char>)
    requires
        byte_len(s) < usize::MAX,
    ensures
        ordered_tokens(s, tokens_of(s)),
{
    let k = 0int;
    let st = state_at(s, 0);
    lemma_stream_wf(s, k, st);
    lemma_stream_ordered(s, k, st);
}

/// The span of a node from the token at `p0` to the one before `p` lies in the text.
proof fn lemma_node_span_in(s: Seq<char>, toks: Seq<Lexeme>, p0: int, p: int)
    requires
        ordered_tokens(s, toks),
        at_token(toks, p0),
        at_token(toks, p - 1),
        p0 < p,
    ensures
        span_in_text(node_span(s, toks, start_at(s, toks, p0), p), s),
{
    assert(lexeme_wf(s, toks[p0]));
    assert(lexeme_wf(s, toks[p - 1]));
    let a = first_char(toks, p0);
    let b = last_char(toks, p - 1);
    if p0 < p - 1 {
        assert(lexeme_end(toks[p0]) <= lexeme_start(toks[p - 1]));
    }
    assert(0 <= a <= b <= s.len());
    lemma_byte_offset_monotone(s, a, b);
    lemma_byte_offset_monotone(s, b, s.len() as int);
    assert(is_char_offset(s, byte_offset(s, a) as int));
    assert(is_char_offset(s, byte_offset(s, b) as int));
}

proof fn lemma_identifier_spans(s: Seq<char>, toks: Seq<Lexeme>, p: int, role: Seq<char>)
    requires
        ordered_tokens(s, toks),
        at_token(toks, p),
    ensures
        parse_identifier(s, toks, p, role) matches Ok((id, p2)) ==> {
            &&& p2 == p + 1
            &&& at_token(toks, p2)
            &&& is_token(toks, p)
            &&& span_in_text(id.span, s)
        },
{
    if let Ok((id, p2)) = parse_identifier(s, toks, p, role) {
        lemma_node_span_in(s, toks, p, p + 1);
    }
}

proof fn lemma_primary_spans(s: Seq<char>, toks: Seq<Lexeme>, p: int)
    requires
        ordered_tokens(s, toks),
        at_token(toks, p),
    ensures
        parse_primary(s, toks, p) matches Ok((e, p2)) ==> {
            &&& p2 == p + 1
            &&& at_token(toks, p2)
            &&& is_token(toks, p)
            &&& expr_spans_in(e, s)
        },
{
    lemma_identifier_spans(s, toks, p, "variable name"@);
    if let Ok((e, p2)) = parse_primary(s, toks, p) {
        lemma_node_span_in(s, toks, p, p + 1);
    }
}

proof fn lemma_call_spans(s: Seq<char>, toks: Seq<Lexeme>, p: int)
    requires
        ordered_tokens(s, toks),
        at_token(toks, p),
    ensures
        parse_call(s, toks, p) matches Ok((e, p2)) ==> {
            &&& p < p2
            &&& at_token(toks, p2)
            &&& is_token(toks, p2 - 1)
            &&& expr_spans_in(e, s)
        },
    decreases toks.len() - p, 2int,
{
    lemma_primary_spans(s, toks, p);
    if let Ok((e, p1)) = parse_primary(s, toks, p) {
        if kind_at(toks, p1) == TokenKind::ParenOpen {
            if let Ok(p2) = consume(toks, p1, TokenKind::ParenOpen) {
                if kind_at(toks, p2) == TokenKind::ParenClose {
                    if let Ok(p3) = consume(toks, p2, TokenKind::ParenClose) {
                        lemma_node_span_in(s, toks, p, p3);
                        assert(args_spans_in(seq![], 0, s));
                    }
                } else if p < p2 <= toks.len() {
                    lemma_expression_spans(s, toks, p2);
                    if let Ok((arg, p3)) = parse_expression(s, toks, p2) {
                        if let Ok(p4) = consume(toks, p3, TokenKind::ParenClose) {
                            lemma_node_span_in(s, toks, p, p4);
                            assert(args_spans_in(seq![arg], 1, s));
                            assert(args_spans_in(seq![arg], 0, s));
                        }
                    }
                }
            }
        }
    }
}

proof fn lemma_operand_spans(s: Seq<char>, toks: Seq<Lexeme>, level: int, p: int)
    requires
        ordered_tokens(s, toks),
        at_token(toks, p),
        0 <= level <= 3,
    ensures
        parse_operand(s, toks, level, p) matches Ok((e, p2)) ==> {
            &&& p < p2
            &&& at_token(toks, p2)
            &&& is_token(toks, p2 - 1)
            &&& expr_spans_in(e, s)
        },
    decreases toks.len() - p, 9 - 2 * level,
{
    if level == 3 {
        lemma_call_spans(s, toks, p);
    } else {
        lemma_binary_spans(s, toks, level + 1, p);
    }
}

proof fn lemma_binary_spans(s: Seq<char>, toks: Seq<Lexeme>, level: int, p: int)
    requires
        ordered_tokens(s, toks),
        at_token(toks, p),
        0 <= level <= 3,
    ensures
        parse_binary(s, toks, level, p) matches Ok((e, p2)) ==> {
            &&& p < p2
            &&& at_token(toks, p2)
            &&& is_token(toks, p2 - 1)
            &&& expr_spans_in(e, s)
        },
    decreases toks.len() - p, 10 - 2 * level,
{
    lemma_operand_spans(s, toks, level, p);
    if let Ok((left, p1)) = parse_operand(s, toks, level, p) {
        lemma_rest_spans(s, toks, level, p, left, p1);
    }
}

proof fn lemma_rest_spans(s: Seq<char>, toks: Seq<Lexeme>, level: int, p0: int, left: ExprNodeView, p: int)
    requires
        ordered_tokens(s, toks),
        at_token(toks, p0),
        at_token(toks, p),
        is_token(toks, p - 1),
        p0 < p,
        0 <= level <= 3,
        expr_spans_in(left, s),
    ensures
        parse_binary_rest(s, toks, level, start_at(s, toks, p0), left, p) matches Ok((e, p2)) ==> {
            &&& p <= p2
            &&& at_token(toks, p2)
            &&& is_token(toks, p2 - 1)
            &&& expr_spans_in(e, s)
        },
    decreases toks.len() - p, 0int,
{
    let start = start_at(s, toks, p0);
    if let Some(op) = binary_operator(level, kind_at(toks, p)) {
        if let Ok(p2) = advance_to(toks, p) {
            lemma_operand_spans(s, toks, level, p2);
            if let Ok((right, p3)) = parse_operand(s, toks, level, p2) {
                lemma_node_span_in(s, toks, p0, p3);
                let node = ExprNodeView {
                    expr: ExprView::Binary(Box::new(left), op, Box::new(right)),
                    span: node_span(s, toks, start, p3),
                };
                lemma_rest_spans(s, toks, level, p0, node, p3);
            }
        }
    }
}

proof fn lemma_expression_spans(s: Seq<char>, toks: Seq<Lexeme>, p: int)
    requires
        ordered_tokens(s, toks),
        at_token(toks, p),
    ensures
        parse_expression(s, toks, p) matches Ok((e, p2)) ==> {
            &&& p < p2
            &&& at_token(toks, p2)
            &&& is_token(toks, p2 - 1)
            &&& expr_spans_in(e, s)
        },
    decreases toks.len() - p, 11int,
{
    lemma_binary_spans(s, toks, 0, p);
}

proof fn lemma_annotations_spans(s: Seq<char>, toks: Seq<Lexeme>, p: int)
    requires
        ordered_tokens(s, toks),
        at_token(toks, p),
    ensures
        parse_annotations(s, toks, p) matches Ok((ids, p2)) ==> {
            &&& p <= p2
            &&& at_token(toks, p2)
            &&& p < p2 ==> is_token(toks, p2 - 1)
            &&& idents_spans_in(ids, s)
        },
    decreases toks.len() - p,
{
    if kind_at(toks, p) == TokenKind::At {
        if let Ok(p2) = consume(toks, p, TokenKind::At) {
            lemma_identifier_spans(s, toks, p2, "annotation"@);
            if let Ok((a, p3)) = parse_identifier(s, toks, p2, "annotation"@) {
                if p < p3 <= toks.len() {
                    lemma_annotations_spans(s, toks, p3);
                    if let Ok((rest, p4)) = parse_annotations(s, toks, p3) {
                        let all = seq![a] + rest;
                        assert forall|i: int| 0 <= i < all.len() implies span_in_text(#[trigger] all[i].span, s) by {
                            if i > 0 {
                                assert(all[i] == rest[i - 1]);
                            }
                        }
                    }
                }
            }
        }
    } else {
        assert(idents_spans_in(seq![], s));
    }
}

proof fn lemma_statement_spans(s: Seq<char>, toks: Seq<Lexeme>, p: int)
    requires
        ordered_tokens(s, toks),
        at_token(toks, p),
    ensures
        parse_statement(s, toks, p) matches Ok((st, p2)) ==> {
            &&& p < p2
            &&& at_token(toks, p2)
            &&& is_token(toks, p2 - 1)
            &&& stmt_spans_in(st, s)
        },
    decreases toks.len() - p, 12int,
{
    let kind = kind_at(toks, p);
    if kind == TokenKind::Fun || kind == TokenKind::At {
        lemma_function_spans(s, toks, p);
    } else {
        lemma_expression_spans(s, toks, p);
        if let Ok((e, p1)) = parse_expression(s, toks, p) {
            if let Ok(p2) = consume(toks, p1, TokenKind::Semicolon) {
                lemma_node_span_in(s, toks, p, p1);
            }
        }
    }
}

proof fn lemma_block_spans(s: Seq<char>, toks: Seq<Lexeme>, p: int)
    requires
        ordered_tokens(s, toks),
        at_token(toks, p),
    ensures
        parse_block(s, toks, p) matches Ok((stmts, p2)) ==> {
            &&& p <= p2
            &&& at_token(toks, p2)
            &&& stmts_spans_in(stmts, 0, s)
        },
    decreases toks.len() - p, 13int,
{
    if kind_at(toks, p) != TokenKind::BraceClose {
        lemma_statement_spans(s, toks, p);
        if let Ok((st, p2)) = parse_statement(s, toks, p) {
            lemma_block_spans(s, toks, p2);
            if let Ok((rest, p3)) = parse_block(s, toks, p2) {
                lemma_stmts_spans_prepend(st, rest, s);
            }
        }
    }
}

proof fn lemma_stmts_spans_prepend(st: StmtNodeView, rest: Seq<StmtNodeView>, s: Seq<char>)
    requires
        stmt_spans_in(st, s),
        stmts_spans_in(rest, 0, s),
    ensures
        stmts_spans_in(seq![st] + rest, 0, s),
{
    lemma_stmts_spans_shift(st, rest, 0, s);
}

proof fn lemma_stmts_spans_shift(st: StmtNodeView, rest: Seq<StmtNodeView>, i: int, s: Seq<char>)
    requires
        0 <= i <= rest.len(),
        stmts_spans_in(rest, i, s),
    ensures
        stmts_spans_in(seq![st] + rest, i + 1, s),
    decreases rest.len() - i,
{
    let all = seq![st] + rest;
    if i < rest.len() {
        assert(all[i + 1] == rest[i]);
        lemma_stmts_spans_shift(st, rest, i + 1, s);
    }
}

#[verifier::rlimit(80)]
proof fn lemma_function_spans(s: Seq<char>, toks: Seq<Lexeme>, p: int)
    requires
        ordered_tokens(s, toks),
        at_token(toks, p),
    ensures
        parse_function_definition(s, toks, p) matches Ok((st, p2)) ==> {
            &&& p < p2
            &&& at_token(toks, p2)
            &&& is_token(toks, p2 - 1)
            &&& stmt_spans_in(st, s)
        },
    decreases toks.len() - p, 1int,
{
    lemma_annotations_spans(s, toks, p);
    if let Ok((annotations, p1)) = parse_annotations(s, toks, p) {
        if let Ok(p2) = consume(toks, p1, TokenKind::Fun) {
            lemma_identifier_spans(s, toks, p2, "function name"@);
            if let Ok((name, p3)) = parse_identifier(s, toks, p2, "function name"@) {
                if let Ok(p4) = consume(toks, p3, TokenKind::ParenOpen) {
                    if let Ok(p5) = consume(toks, p4, TokenKind::ParenClose) {
                        if let Ok(p6) = consume(toks, p5, TokenKind::BraceOpen) {
                            if p < p6 <= toks.len() {
                                lemma_block_spans(s, toks, p6);
                                if let Ok((statements, p7)) = parse_block(s, toks, p6) {
                                    if let Ok(p8) = consume(toks, p7, TokenKind::BraceClose) {
                                        lemma_node_span_in(s, toks, p, p8);
                                        assert(idents_spans_in(seq![], s));
                                    }
                                }
                            }
                        }
                    }
                }
            }
        }
    }
}

proof fn lemma_script_spans(s: Seq<char>, toks: Seq<Lexeme>, p: int)
    requires
        ordered_tokens(s, toks),
        at_token(toks, p),
    ensures
        parse_script_statements(s, toks, p) matches Ok((stmts, p2)) ==> {
            &&& p <= p2
            &&& at_token(toks, p2)
            &&& p < p2 ==> is_token(toks, p2 - 1)
            &&& stmts_spans_in(stmts, 0, s)
        },
    decreases toks.len() - p,
{
    if kind_at(toks, p) != TokenKind::EndOfFile {
        lemma_statement_spans(s, toks, p);
        if let Ok((st, p2)) = parse_statement(s, toks, p) {
            lemma_script_spans(s, toks, p2);
            if let Ok((rest, p3)) = parse_script_statements(s, toks, p2) {
                lemma_stmts_spans_prepend(st, rest, s);
            }
        }
    }
}

/// Every span of a parsed script, the script's own included, lies on character boundaries
/// of the text, in order.
pub proof fn law_parse_spans_in_text(s: Seq<char>)
    requires
        byte_len(s) < usize::MAX,
    ensures
        parse_text(s) matches Ok((stmts, span)) ==> span_in_text(span, s) && stmts_spans_in(stmts, 0, s),
{
    let toks = tokens_of(s);
    lemma_tokens_ordered(s);
    if toks.len() > 0 && (toks[0] is Token || toks[0] is EndOfInput) {
        lemma_script_spans(s, toks, 0);
        if let Ok((stmts, p)) = parse_script_statements(s, toks, 0) {
            assert(is_char_offset(s, 0)) by {
                assert(byte_offset(s, 0) == 0);
            }
            if p > 0 {
                assert(lexeme_wf(s, toks[p - 1]));
                let b = last_char(toks, p - 1);
                lemma_byte_offset_monotone(s, b, s.len() as int);
                assert(is_char_offset(s, byte_offset(s, b) as int));
            }
        }
    }
}

} // verus!
