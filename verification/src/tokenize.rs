//! Turning a source text into tokens.

use crate::message::{is_labelled_error, EffyError, SourceMessage};
use crate::source::SourceFile;
use crate::span::SourceSpan;
use crate::text::{
    byte_len, byte_offset, char_index, is_char_offset, lemma_byte_offset_monotone, lemma_byte_offset_step, lemma_char_index, len_utf8,
    push_char, push_str,
};
use crate::token::{kind_name, Token, TokenKind};
use std::ops::Range;
use vstd::prelude::*;

verus! {

/// The character the tokenizer sees once the text is exhausted.
pub const EOF: char = '\u{2404}';

/// Whether a character has the Unicode `White_Space` property, which `char::is_whitespace`
/// tests: tab, line feed, vertical tab, form feed, carriage return, space, next line,
/// no-break space, ogham space mark, the spaces U+2000 to U+200A, line separator,
/// paragraph separator, narrow no-break space, medium mathematical space and ideographic
/// space (PropList.txt of the Unicode Character Database).
pub open spec fn white_space(c: char) -> bool {
    ||| '\u{9}' <= c <= '\u{d}'
    ||| c == ' '
    ||| c == '\u{85}'
    ||| c == '\u{a0}'
    ||| c == '\u{1680}'
    ||| '\u{2000}' <= c <= '\u{200a}'
    ||| c == '\u{2028}'
    ||| c == '\u{2029}'
    ||| c == '\u{202f}'
    ||| c == '\u{205f}'
    ||| c == '\u{3000}'
}

/// Whether `char::is_alphanumeric` holds of a character beyond ASCII (Unicode `Alphabetic`,
/// or general category `Nd`, `Nl` or `No`).
pub uninterp spec fn alphanumeric_beyond_ascii(c: char) -> bool;

/// Whether `char::is_alphanumeric` holds of a character: in ASCII, exactly the letters and
/// the decimal digits.
pub open spec fn alphanumeric(c: char) -> bool {
    if c <= '\u{7f}' {
        ('a' <= c <= 'z') || ('A' <= c <= 'Z') || ('0' <= c <= '9')
    } else {
        alphanumeric_beyond_ascii(c)
    }
}

/// Whether `c` has the Unicode `White_Space` property, as `char::is_whitespace` tests.
fn is_whitespace(c: char) -> (r: bool)
    ensures
        r == white_space(c),
{
    ('\u{9}' <= c && c <= '\u{d}') || c == ' ' || c == '\u{85}' || c == '\u{a0}' || c == '\u{1680}'
        || ('\u{2000}' <= c && c <= '\u{200a}') || c == '\u{2028}' || c == '\u{2029}' || c == '\u{202f}'
        || c == '\u{205f}' || c == '\u{3000}'
}

/// `char::is_alphanumeric`: whether `c` is alphabetic or numeric in Unicode; in ASCII
/// those are the letters and digits, beyond it the result is named
/// `alphanumeric_beyond_ascii` of `c`.
#[verifier::external_body]
fn is_alphanumeric(c: char) -> (r: bool)
    ensures
        r == alphanumeric(c),
        c > '\u{7f}' ==> r == alphanumeric_beyond_ascii(c),
{
    c.is_alphanumeric()
}

/// Where the tokenizer stands.
#[derive(Debug, Eq, PartialEq, Copy, Clone, Structural)]
pub enum TokenizerState {
    /// There are characters left to read.
    Reading,
    /// The next token is the end of the file.
    EndOfFile,
    /// The end of the file was handed out: there are no more tokens.
    Done,
}

/// The character at index `k`, or `EOF` past the end.
pub open spec fn char_at(s: Seq<char>, k: int) -> char {
    if 0 <= k < s.len() {
        s[k]
    } else {
        EOF
    }
}

/// The first index at or after `k` that does not hold whitespace.
pub open spec fn skip_whitespace(s: Seq<char>, k: int) -> int
    decreases s.len() - k,
{
    if 0 <= k < s.len() && white_space(s[k]) {
        skip_whitespace(s, k + 1)
    } else {
        k
    }
}

/// The first index at or after `k` that holds a line break or `EOF`, or the end of the text.
pub open spec fn line_comment_end(s: Seq<char>, k: int) -> int
    decreases s.len() - k,
{
    if 0 <= k < s.len() && s[k] != '\n' && s[k] != EOF {
        line_comment_end(s, k + 1)
    } else {
        k
    }
}

/// Scans a block comment from `k` with `nesting` comments open: whether it closes, and at
/// which index (that of the `*` of the last `*/`, or where the text ran out).
pub open spec fn block_comment_scan(s: Seq<char>, k: int, nesting: int) -> (bool, int)
    decreases s.len() - k,
{
    if !(0 <= k < s.len()) || s[k] == EOF {
        (false, k)
    } else if s[k] == '*' && char_at(s, k + 1) == '/' {
        if nesting <= 1 {
            (true, k)
        } else {
            block_comment_scan(s, k + 1, nesting - 1)
        }
    } else if s[k] == '/' && char_at(s, k + 1) == '*' {
        block_comment_scan(s, k + 1, nesting + 1)
    } else {
        block_comment_scan(s, k + 1, nesting)
    }
}

/// The first index at or after `k` that holds `"` or `EOF`, or the end of the text.
pub open spec fn string_end(s: Seq<char>, k: int) -> int
    decreases s.len() - k,
{
    if 0 <= k < s.len() && s[k] != '"' && s[k] != EOF {
        string_end(s, k + 1)
    } else {
        k
    }
}

/// The first index at or after `k` that does not hold a decimal digit.
pub open spec fn digits_end(s: Seq<char>, k: int) -> int
    decreases s.len() - k,
{
    if 0 <= k < s.len() && '0' <= s[k] <= '9' {
        digits_end(s, k + 1)
    } else {
        k
    }
}

/// The first index at or after `k` that does not hold an identifier character.
pub open spec fn identifier_end(s: Seq<char>, k: int) -> int
    decreases s.len() - k,
{
    if 0 <= k < s.len() && (alphanumeric(s[k]) || s[k] == '_') {
        identifier_end(s, k + 1)
    } else {
        k
    }
}

/// A character that starts an identifier or keyword.
pub open spec fn starts_identifier(c: char) -> bool {
    ('a' <= c <= 'z') || ('A' <= c <= 'Z') || c == '_'
}

/// The kind of a word: a keyword, or an identifier.
pub open spec fn word_kind(w: Seq<char>) -> TokenKind {
    if w == seq!['f', 'u', 'n'] {
        TokenKind::Fun
    } else if w == seq!['t', 'r', 'u', 'e'] {
        TokenKind::True
    } else if w == seq!['f', 'a', 'l', 's', 'e'] {
        TokenKind::False
    } else {
        TokenKind::Identifier
    }
}

/// The kind of a token made of one character that never starts a longer token.
pub open spec fn single_symbol(c: char) -> Option<TokenKind> {
    if c == '(' {
        Some(TokenKind::ParenOpen)
    } else if c == ')' {
        Some(TokenKind::ParenClose)
    } else if c == '{' {
        Some(TokenKind::BraceOpen)
    } else if c == '}' {
        Some(TokenKind::BraceClose)
    } else if c == '[' {
        Some(TokenKind::BracketOpen)
    } else if c == ']' {
        Some(TokenKind::BracketClose)
    } else if c == ',' {
        Some(TokenKind::Comma)
    } else if c == ';' {
        Some(TokenKind::Semicolon)
    } else if c == ':' {
        Some(TokenKind::Colon)
    } else if c == '.' {
        Some(TokenKind::Dot)
    } else if c == '@' {
        Some(TokenKind::At)
    } else if c == '*' {
        Some(TokenKind::Star)
    } else if c == '+' {
        Some(TokenKind::Plus)
    } else if c == '-' {
        Some(TokenKind::Minus)
    } else {
        None
    }
}

/// The kind of a token that is `c`, or `c` followed by `=`.
pub open spec fn comparison_symbol(c: char, followed_by_equals: bool) -> Option<TokenKind> {
    if c == '=' {
        Some(if followed_by_equals { TokenKind::EqualsEquals } else { TokenKind::Equals })
    } else if c == '>' {
        Some(if followed_by_equals { TokenKind::GreaterThanEquals } else { TokenKind::GreaterThan })
    } else if c == '<' {
        Some(if followed_by_equals { TokenKind::LessThanEquals } else { TokenKind::LessThan })
    } else if c == '!' {
        Some(if followed_by_equals { TokenKind::NotEquals } else { TokenKind::Exclamation })
    } else {
        None
    }
}

/// What the tokenizer finds next, in character indices.
pub enum Lexeme {
    /// A token of the kind, covering `start..end`.
    Token(TokenKind, int, int),
    /// The end of the text, at the index.
    EndOfInput(int),
    /// A block comment from `start` that is still open at `at`.
    UnterminatedComment(int, int),
    /// A string from `start` that is still open at `at`.
    UnterminatedString(int, int),
    /// A character that starts no token, at the index.
    Unexpected(int),
}

pub proof fn lemma_scan_bounds(s: Seq<char>, k: int)
    requires
        0 <= k <= s.len(),
    ensures
        k <= skip_whitespace(s, k) <= s.len(),
        k <= line_comment_end(s, k) <= s.len(),
        k <= string_end(s, k) <= s.len(),
        k <= digits_end(s, k) <= s.len(),
        k <= identifier_end(s, k) <= s.len(),
    decreases s.len() - k,
{
    if k < s.len() {
        lemma_scan_bounds(s, k + 1);
    }
}

pub proof fn lemma_block_comment_bounds(s: Seq<char>, k: int, nesting: int)
    requires
        0 <= k <= s.len(),
    ensures
        k <= block_comment_scan(s, k, nesting).1 <= s.len(),
        block_comment_scan(s, k, nesting).0 ==> block_comment_scan(s, k, nesting).1 + 1 < s.len() + 1
            && s[block_comment_scan(s, k, nesting).1] == '*'
            && char_at(s, block_comment_scan(s, k, nesting).1 + 1) == '/',
    decreases s.len() - k,
{
    if 0 <= k < s.len() && s[k] != EOF {
        if s[k] == '*' && char_at(s, k + 1) == '/' {
            if nesting > 1 {
                lemma_block_comment_bounds(s, k + 1, nesting - 1);
            }
        } else if s[k] == '/' && char_at(s, k + 1) == '*' {
            lemma_block_comment_bounds(s, k + 1, nesting + 1);
        } else {
            lemma_block_comment_bounds(s, k + 1, nesting);
        }
    }
}

/// What the tokenizer finds when it reads from index `k`: whitespace and comments are
/// skipped, then one token, the end of the text, or an error.
pub open spec fn scan(s: Seq<char>, k: int) -> Lexeme
    decreases s.len() - k,
{
    if !(0 <= k <= s.len()) {
        Lexeme::EndOfInput(k)
    } else {
        let j = skip_whitespace(s, k);
        proof {
            lemma_scan_bounds(s, k);
        }
        if j >= s.len() {
            Lexeme::EndOfInput(j)
        } else {
            let c = s[j];
            let next = char_at(s, j + 1);
            if c == '/' && next == '/' {
                proof {
                    lemma_scan_bounds(s, j + 2);
                }
                scan(s, line_comment_end(s, j + 2))
            } else if c == '/' && next == '*' {
                proof {
                    lemma_block_comment_bounds(s, j + 2, 1);
                }
                let (closed, m) = block_comment_scan(s, j + 2, 1);
                if closed {
                    scan(s, if m + 3 < s.len() { m + 3 } else { s.len() as int })
                } else {
                    Lexeme::UnterminatedComment(j, m)
                }
            } else if c == '/' {
                Lexeme::Token(TokenKind::Slash, j, j + 1)
            } else if single_symbol(c) is Some {
                Lexeme::Token(single_symbol(c)->0, j, j + 1)
            } else if comparison_symbol(c, next == '=') is Some {
                Lexeme::Token(comparison_symbol(c, next == '=')->0, j, if next == '=' { j + 2 } else { j + 1 })
            } else if c == '"' {
                let m = string_end(s, j + 1);
                if m < s.len() && s[m] == '"' {
                    Lexeme::Token(TokenKind::String, j, m + 1)
                } else {
                    Lexeme::UnterminatedString(j, m)
                }
            } else if '0' <= c <= '9' {
                Lexeme::Token(TokenKind::Integer, j, digits_end(s, j + 1))
            } else if starts_identifier(c) {
                let m = identifier_end(s, j + 1);
                Lexeme::Token(word_kind(s.subrange(j, m)), j, m)
            } else {
                Lexeme::Unexpected(j)
            }
        }
    }
}

proof fn lemma_digits_end(s: Seq<char>, k: int)
    requires
        0 <= k <= s.len(),
    ensures
        forall|i: int| k <= i < digits_end(s, k) ==> '0' <= #[trigger] s[i] <= '9',
        digits_end(s, k) == s.len() || !('0' <= s[digits_end(s, k)] <= '9'),
    decreases s.len() - k,
{
    if k < s.len() && '0' <= s[k] <= '9' {
        lemma_digits_end(s, k + 1);
    }
}

/// What `scan` finds lies at or after where it starts, inside the text; tokens are not
/// empty, string tokens are quoted, integer tokens are digits, and words are classified.
pub proof fn lemma_scan_shape(s: Seq<char>, k: int)
    requires
        0 <= k <= s.len(),
    ensures
        match scan(s, k) {
            Lexeme::Token(kind, a, b) => {
                &&& k <= a < b <= s.len()
                &&& kind != TokenKind::EndOfFile
                &&& kind == TokenKind::String ==> (b - a >= 2 && s[a] == '"' && s[b - 1] == '"')
                &&& kind == TokenKind::Integer ==> forall|i: int| a <= i < b ==> '0' <= #[trigger] s[i] <= '9'
                &&& (kind == TokenKind::Identifier || kind == TokenKind::Fun || kind == TokenKind::True
                    || kind == TokenKind::False) ==> kind == word_kind(s.subrange(a, b))
            },
            Lexeme::EndOfInput(j) => k <= j && j == s.len(),
            Lexeme::UnterminatedComment(a, m) => k <= a && a + 2 <= m <= s.len(),
            Lexeme::UnterminatedString(a, m) => k <= a < m <= s.len(),
            Lexeme::Unexpected(j) => k <= j < s.len(),
        },
    decreases s.len() - k,
{
    lemma_scan_bounds(s, k);
    let j = skip_whitespace(s, k);
    if j < s.len() {
        let c = s[j];
        let next = char_at(s, j + 1);
        if c == '/' && next == '/' {
            lemma_scan_bounds(s, j + 2);
            lemma_scan_shape(s, line_comment_end(s, j + 2));
        } else if c == '/' && next == '*' {
            lemma_block_comment_bounds(s, j + 2, 1);
            let (closed, m) = block_comment_scan(s, j + 2, 1);
            if closed {
                lemma_scan_shape(s, if m + 3 < s.len() { m + 3 } else { s.len() as int });
            }
        } else if c == '"' {
            lemma_scan_bounds(s, j + 1);
        } else if '0' <= c <= '9' {
            lemma_scan_bounds(s, j + 1);
            lemma_digits_end(s, j + 1);
        } else if starts_identifier(c) {
            lemma_scan_bounds(s, j + 1);
        }
    }
}

/// A rank that every step of the tokenizer that hands out a token lowers.
pub open spec fn step_rank(s: Seq<char>, k: int, state: TokenizerState) -> int {
    2 * (s.len() - k) + match state {
        TokenizerState::Reading => 2int,
        TokenizerState::EndOfFile => 1int,
        TokenizerState::Done => 0int,
    }
}

/// Everything the tokenizer hands out from index `k` in `state`: tokens, up to and including
/// the end of the file or the first error.
pub open spec fn token_stream(s: Seq<char>, k: int, state: TokenizerState) -> Seq<Lexeme>
    decreases step_rank(s, k, state),
{
    if !(0 <= k <= s.len()) {
        seq![]
    } else {
        let (k2, st2, found) = next_step(s, k, state);
        match found {
            None => seq![],
            Some(f) => match f {
                Lexeme::Token(kind, a, b) => {
                    proof {
                        lemma_scan_shape(s, k);
                    }
                    if step_rank(s, k2, st2) < step_rank(s, k, state) {
                        seq![f] + token_stream(s, k2, st2)
                    } else {
                        seq![f]
                    }
                },
                _ => seq![f],
            },
        }
    }
}

/// The tokens of a whole text.
pub open spec fn tokens_of(s: Seq<char>) -> Seq<Lexeme> {
    token_stream(s, 0, state_at(s, 0))
}

/// A step that hands out a token lowers the rank, so the stream continues after it.
pub proof fn lemma_stream_step(s: Seq<char>, k: int, state: TokenizerState)
    requires
        0 <= k <= s.len(),
        state == TokenizerState::Reading ==> k < s.len(),
    ensures
        ({
            let (k2, st2, found) = next_step(s, k, state);
            &&& 0 <= k2 <= s.len()
            &&& st2 == TokenizerState::Reading ==> k2 < s.len()
            &&& match found {
                None => token_stream(s, k, state) == Seq::<Lexeme>::empty(),
                Some(f) => {
                    &&& token_stream(s, k, state).len() > 0
                    &&& token_stream(s, k, state)[0] == f
                    &&& f is Token ==> token_stream(s, k, state) == seq![f] + token_stream(s, k2, st2)
                    &&& !(f is Token) ==> token_stream(s, k, state) == seq![f]
                },
            }
        }),
{
    if state == TokenizerState::Reading {
        lemma_scan_shape(s, k);
    }
}

/// What the tokenizer hands out lies inside the text, and tokens have the shape of their kind.
pub open spec fn lexeme_wf(s: Seq<char>, l: Lexeme) -> bool {
    match l {
        Lexeme::Token(kind, a, b) => {
            &&& 0 <= a < b <= s.len()
            &&& kind != TokenKind::EndOfFile
            &&& kind == TokenKind::String ==> (b - a >= 2 && s[a] == '"' && s[b - 1] == '"')
            &&& kind == TokenKind::Integer ==> forall|i: int| a <= i < b ==> '0' <= #[trigger] s[i] <= '9'
        },
        Lexeme::EndOfInput(j) => 0 <= j <= s.len(),
        Lexeme::UnterminatedComment(a, m) => 0 <= a <= m <= s.len(),
        Lexeme::UnterminatedString(a, m) => 0 <= a < m <= s.len(),
        Lexeme::Unexpected(j) => 0 <= j < s.len(),
    }
}

/// Everything in a token stream is well formed.
pub proof fn lemma_stream_wf(s: Seq<char>, k: int, state: TokenizerState)
    requires
        0 <= k <= s.len(),
        state == TokenizerState::Reading ==> k < s.len(),
    ensures
        forall|i: int| 0 <= i < token_stream(s, k, state).len() ==> lexeme_wf(s, #[trigger] token_stream(s, k, state)[i]),
    decreases step_rank(s, k, state),
{
    lemma_stream_step(s, k, state);
    let (k2, st2, found) = next_step(s, k, state);
    if state == TokenizerState::Reading {
        lemma_scan_shape(s, k);
    }
    match found {
        None => {},
        Some(f) => {
            if f is Token {
                lemma_stream_wf(s, k2, st2);
                let t = token_stream(s, k, state);
                assert forall|i: int| 0 <= i < t.len() implies lexeme_wf(s, #[trigger] t[i]) by {
                    if i > 0 {
                        assert(t[i] == token_stream(s, k2, st2)[i - 1]);
                    }
                }
            }
        },
    }
}

/// The character index where an entry of the stream starts.
pub open spec fn lexeme_start(l: Lexeme) -> int {
    match l {
        Lexeme::Token(_, a, _) => a,
        Lexeme::EndOfInput(j) => j,
        Lexeme::UnterminatedComment(a, _) => a,
        Lexeme::UnterminatedString(a, _) => a,
        Lexeme::Unexpected(j) => j,
    }
}

/// The character index where an entry of the stream ends.
pub open spec fn lexeme_end(l: Lexeme) -> int {
    match l {
        Lexeme::Token(_, _, b) => b,
        Lexeme::EndOfInput(j) => j,
        Lexeme::UnterminatedComment(_, m) => m,
        Lexeme::UnterminatedString(_, m) => m,
        Lexeme::Unexpected(j) => j,
    }
}

/// The entries of a stream lie in order: each starts at or after `k` and ends no earlier
/// than it starts, and each ends before the next one starts.
pub proof fn lemma_stream_ordered(s: Seq<char>, k: int, state: TokenizerState)
    requires
        0 <= k <= s.len(),
        state == TokenizerState::Reading ==> k < s.len(),
    ensures
        forall|i: int|
            0 <= i < token_stream(s, k, state).len() ==> k <= lexeme_start(#[trigger] token_stream(s, k, state)[i])
                <= lexeme_end(token_stream(s, k, state)[i]),
        forall|i: int, j: int|
            0 <= i < j < token_stream(s, k, state).len() ==> lexeme_end(#[trigger] token_stream(s, k, state)[i])
                <= lexeme_start(#[trigger] token_stream(s, k, state)[j]),
    decreases step_rank(s, k, state),
{
    lemma_stream_step(s, k, state);
    let (k2, st2, found) = next_step(s, k, state);
    if state == TokenizerState::Reading {
        lemma_scan_shape(s, k);
    }
    if let Some(f) = found {
        if f is Token {
            lemma_stream_ordered(s, k2, st2);
            let t = token_stream(s, k, state);
            let rest = token_stream(s, k2, st2);
            assert forall|i: int| 0 <= i < t.len() implies k <= lexeme_start(#[trigger] t[i]) <= lexeme_end(t[i]) by {
                if i > 0 {
                    assert(t[i] == rest[i - 1]);
                }
            }
            assert forall|i: int, j: int| 0 <= i < j < t.len() implies lexeme_end(#[trigger] t[i]) <= lexeme_start(
                #[trigger] t[j],
            ) by {
                assert(t[j] == rest[j - 1]);
                if i > 0 {
                    assert(t[i] == rest[i - 1]);
                }
            }
        }
    }
}

/// The state the tokenizer is in at index `k` when nothing else stops it.
pub open spec fn state_at(s: Seq<char>, k: int) -> TokenizerState {
    if k < s.len() {
        TokenizerState::Reading
    } else {
        TokenizerState::EndOfFile
    }
}

/// One call of `next_token` from index `k` in `state`: the next index, the next state,
/// and what is found (nothing once the tokenizer is done).
pub open spec fn next_step(s: Seq<char>, k: int, state: TokenizerState) -> (int, TokenizerState, Option<Lexeme>) {
    match state {
        TokenizerState::Done => (k, TokenizerState::Done, None),
        TokenizerState::EndOfFile => (k, TokenizerState::Done, Some(Lexeme::EndOfInput(k))),
        TokenizerState::Reading => match scan(s, k) {
            Lexeme::Token(kind, a, b) => (b, state_at(s, b), Some(Lexeme::Token(kind, a, b))),
            Lexeme::EndOfInput(j) => (j, TokenizerState::Done, Some(Lexeme::EndOfInput(j))),
            Lexeme::UnterminatedComment(a, m) => (m, state_at(s, m), Some(Lexeme::UnterminatedComment(a, m))),
            Lexeme::UnterminatedString(a, m) => (m, state_at(s, m), Some(Lexeme::UnterminatedString(a, m))),
            Lexeme::Unexpected(j) => (j, TokenizerState::EndOfFile, Some(Lexeme::Unexpected(j))),
        },
    }
}

/// The byte span of the characters `a..b`.
pub open spec fn byte_span(s: Seq<char>, a: int, b: int) -> SourceSpan {
    SourceSpan::from_bounds(byte_offset(s, a) as usize, byte_offset(s, b) as usize)
}

/// The item `next_token` hands out for what it found in `file`.
pub open spec fn lexeme_item(file: SourceFile, found: Lexeme, item: Result<Token, EffyError>) -> bool {
    let s = file.text();
    match found {
        Lexeme::Token(kind, a, b) => item matches Ok(t) && t.spec_kind() == kind && t.spec_span() == byte_span(s, a, b),
        Lexeme::EndOfInput(j) => item matches Ok(t) && t.spec_kind() == TokenKind::EndOfFile && t.spec_span() == byte_span(s, j, j),
        Lexeme::UnterminatedComment(a, m) => item matches Err(e) && is_labelled_error(
            e,
            file,
            "Unterminated block comment"@,
            byte_span(s, a, m),
            "This block comment is not terminated with '*/'"@,
        ),
        Lexeme::UnterminatedString(a, m) => item matches Err(e) && is_labelled_error(
            e,
            file,
            "Unterminated string"@,
            byte_span(s, m, m),
            "This string requires a terminating \" character here"@,
        ),
        Lexeme::Unexpected(j) => item matches Err(e) && is_labelled_error(
            e,
            file,
            "Unexpected character '"@ + seq![s[j]] + "'"@,
            byte_span(s, j, j + 1),
            "This character is not expected here"@,
        ),
    }
}

/// Reads tokens from a source file, one call of `next_token` at a time.
pub struct Tokenizer<'source> {
    source_file: &'source SourceFile,
    start_position: usize,
    current_position: usize,
    start_index: usize,
    current_index: usize,
    state: TokenizerState,
}

/// Starts tokenizing a source file.
pub fn tokenize<'source>(source_file: &'source SourceFile) -> (r: Tokenizer<'source>)
    ensures
        r.wf(),
        r.spec_file() == source_file,
        r.spec_index() == 0,
        r.spec_start_index() == 0,
        r.spec_state() == state_at(source_file.text(), 0),
{
    let n = source_file.char_count();
    Tokenizer {
        source_file,
        start_position: 0,
        current_position: 0,
        start_index: 0,
        current_index: 0,
        state: if n > 0 { TokenizerState::Reading } else { TokenizerState::EndOfFile },
    }
}

impl<'source> Tokenizer<'source> {
    /// The tokenizer's positions agree with its text.
    pub closed spec fn wf(&self) -> bool {
        let s = self.source_file.text();
        &&& self.start_index <= self.current_index <= s.len()
        &&& self.current_position == byte_offset(s, self.current_index as int)
        &&& self.start_position == byte_offset(s, self.start_index as int)
        &&& self.state == TokenizerState::Reading ==> self.current_index < s.len()
    }

    /// What a well-formed tokenizer's position says.
    pub proof fn lemma_wf(&self)
        requires
            self.wf(),
        ensures
            0 <= self.spec_start_index() <= self.spec_index() <= self.spec_file().text().len(),
            self.spec_state() == TokenizerState::Reading ==> self.spec_index() < self.spec_file().text().len(),
    {
    }

    pub closed spec fn spec_file(&self) -> &'source SourceFile {
        self.source_file
    }

    /// The index of the character the tokenizer is at.
    pub closed spec fn spec_index(&self) -> int {
        self.current_index as int
    }

    /// The index where the token being read started.
    pub closed spec fn spec_start_index(&self) -> int {
        self.start_index as int
    }

    pub closed spec fn spec_state(&self) -> TokenizerState {
        self.state
    }

    fn current_char(&self) -> (c: char)
        requires
            self.wf(),
        ensures
            c == char_at(self.spec_file().text(), self.spec_index()),
    {
        if self.current_index < self.source_file.char_count() {
            self.source_file.char_at(self.current_index)
        } else {
            EOF
        }
    }

    fn next_char(&self) -> (c: char)
        requires
            self.wf(),
        ensures
            c == char_at(self.spec_file().text(), self.spec_index() + 1),
    {
        let n = self.source_file.char_count();
        if n > 0 && self.current_index < n - 1 {
            self.source_file.char_at(self.current_index + 1)
        } else {
            EOF
        }
    }

    /// Moves to the next character, while there are characters to read.
    fn advance(&mut self)
        requires
            old(self).wf(),
            old(self).spec_state() != TokenizerState::EndOfFile || old(self).spec_index() == old(self).spec_file().text().len(),
        ensures
            final(self).wf(),
            final(self).spec_file() == old(self).spec_file(),
            final(self).spec_start_index() == old(self).spec_start_index(),
            old(self).spec_state() == TokenizerState::Reading ==> {
                &&& final(self).spec_index() == old(self).spec_index() + 1
                &&& final(self).spec_state() == state_at(old(self).spec_file().text(), old(self).spec_index() + 1)
            },
            old(self).spec_state() != TokenizerState::Reading ==> *final(self) == *old(self),
    {
        if self.state != TokenizerState::Reading {
            return;
        }
        let ghost s = self.source_file.text();
        let n = self.source_file.char_count();
        proof {
            lemma_byte_offset_step(s, self.current_index as int);
            lemma_byte_offset_monotone(s, self.current_index + 1, s.len() as int);
        }
        let _ = self.source_file.byte_len();
        let w = len_utf8(self.source_file.char_at(self.current_index));
        self.current_position = self.current_position + w;
        self.current_index = self.current_index + 1;
        if self.current_index == n {
            self.state = TokenizerState::EndOfFile;
        }
    }

    /// The token of the kind spanning from where the current token started to here;
    /// the next token starts here.
    pub fn create_token(&mut self, token_kind: TokenKind) -> (r: Result<Token, EffyError>)
        requires
            old(self).wf(),
        ensures
            final(self).wf(),
            final(self).spec_file() == old(self).spec_file(),
            final(self).spec_index() == old(self).spec_index(),
            final(self).spec_state() == old(self).spec_state(),
            final(self).spec_start_index() == old(self).spec_index(),
            r matches Ok(t) && t.spec_kind() == token_kind && t.spec_span() == byte_span(
                old(self).spec_file().text(),
                old(self).spec_start_index(),
                old(self).spec_index(),
            ),
    {
        let location = SourceSpan::new(Range { start: self.start_position, end: self.current_position });
        self.start_position = self.current_position;
        self.start_index = self.current_index;
        Ok(Token::new(token_kind, location))
    }

    /// Moves past the current character, then creates the token of the kind.
    pub fn advance_and_create_token(&mut self, token_kind: TokenKind) -> (r: Result<Token, EffyError>)
        requires
            old(self).wf(),
            old(self).spec_state() == TokenizerState::Reading,
        ensures
            final(self).wf(),
            final(self).spec_file() == old(self).spec_file(),
            final(self).spec_index() == old(self).spec_index() + 1,
            final(self).spec_state() == state_at(old(self).spec_file().text(), old(self).spec_index() + 1),
            final(self).spec_start_index() == old(self).spec_index() + 1,
            r matches Ok(t) && t.spec_kind() == token_kind && t.spec_span() == byte_span(
                old(self).spec_file().text(),
                old(self).spec_start_index(),
                old(self).spec_index() + 1,
            ),
    {
        self.advance();
        self.create_token(token_kind)
    }

    /// The kind of the word `start..end` of the text: a keyword or an identifier.
    fn word_kind_at(&self, start: usize, end: usize) -> (r: TokenKind)
        requires
            start <= end <= self.spec_file().text().len(),
        ensures
            r == word_kind(self.spec_file().text().subrange(start as int, end as int)),
    {
        let ghost w = self.source_file.text().subrange(start as int, end as int);
        let len = end - start;
        let f = self.source_file;
        if len == 3 && f.char_at(start) == 'f' && f.char_at(start + 1) == 'u' && f.char_at(start + 2) == 'n' {
            assert(w =~= seq!['f', 'u', 'n']);
            TokenKind::Fun
        } else if len == 4 && f.char_at(start) == 't' && f.char_at(start + 1) == 'r' && f.char_at(start + 2) == 'u'
            && f.char_at(start + 3) == 'e' {
            assert(w =~= seq!['t', 'r', 'u', 'e']);
            TokenKind::True
        } else if len == 5 && f.char_at(start) == 'f' && f.char_at(start + 1) == 'a' && f.char_at(start + 2) == 'l'
            && f.char_at(start + 3) == 's' && f.char_at(start + 4) == 'e' {
            assert(w =~= seq!['f', 'a', 'l', 's', 'e']);
            TokenKind::False
        } else {
            assert(w != seq!['f', 'u', 'n']) by {
                if w == seq!['f', 'u', 'n'] {
                    assert(w.len() == 3 && w[0] == 'f' && w[1] == 'u' && w[2] == 'n');
                }
            }
            assert(w != seq!['t', 'r', 'u', 'e']) by {
                if w == seq!['t', 'r', 'u', 'e'] {
                    assert(w.len() == 4 && w[0] == 't' && w[1] == 'r' && w[2] == 'u' && w[3] == 'e');
                }
            }
            assert(w != seq!['f', 'a', 'l', 's', 'e']) by {
                if w == seq!['f', 'a', 'l', 's', 'e'] {
                    assert(w.len() == 5 && w[0] == 'f' && w[1] == 'a' && w[2] == 'l' && w[3] == 's' && w[4] == 'e');
                }
            }
            TokenKind::Identifier
        }
    }

    /// The error for text the tokenizer cannot make a token of.
    fn error_here(&self, message: String, start: usize, end: usize, label: &str) -> (r: EffyError)
        requires
            self.wf(),
            start <= end <= self.spec_file().text().len(),
        ensures
            is_labelled_error(
                r,
                *self.spec_file(),
                message@,
                byte_span(self.spec_file().text(), start as int, end as int),
                label@,
            ),
    {
        let ghost s = self.source_file.text();
        proof {
            lemma_char_index(s, start as int);
            lemma_char_index(s, end as int);
            lemma_byte_offset_monotone(s, start as int, end as int);
        }
        let span = SourceSpan::new(
            Range { start: self.source_file.offset_of(start), end: self.source_file.offset_of(end) },
        );
        SourceMessage::error_builder(self.source_file, message).label(span, label).build_error()
    }

    /// The next token, or the error that stops it; `None` once the end of the file was handed out.
    pub fn next_token(&mut self) -> (r: Option<Result<Token, EffyError>>)
        requires
            old(self).wf(),
        ensures
            final(self).wf(),
            final(self).spec_file() == old(self).spec_file(),
            ({
                let (k, st, found) = next_step(
                    old(self).spec_file().text(),
                    old(self).spec_index(),
                    old(self).spec_state(),
                );
                &&& final(self).spec_index() == k
                &&& final(self).spec_state() == st
                &&& match found {
                    None => r is None,
                    Some(f) => r matches Some(item) && lexeme_item(*old(self).spec_file(), f, item),
                }
            }),
    {
        let ghost s = self.source_file.text();
        let ghost file = *self.source_file;
        let ghost k0 = self.current_index as int;
        let n = self.source_file.char_count();
        match self.state {
            TokenizerState::Done => {
                return None;
            },
            TokenizerState::EndOfFile => {
                self.start_position = self.current_position;
                self.start_index = self.current_index;
                self.state = TokenizerState::Done;
                return Some(self.create_token(TokenKind::EndOfFile));
            },
            TokenizerState::Reading => {},
        }
        loop
            invariant
                self.wf(),
                s == self.spec_file().text(),
                file == *self.spec_file(),
                file == *old(self).spec_file(),
                n == s.len(),
                old(self).spec_state() == TokenizerState::Reading,
                k0 == old(self).spec_index(),
                0 <= k0 <= self.spec_index() <= n,
                self.spec_state() == state_at(s, self.spec_index()),
                scan(s, k0) == scan(s, self.spec_index()),
            decreases n - self.spec_index(),
        {
            let ghost head = self.current_index as int;
            proof {
                lemma_scan_bounds(s, head);
            }
            while self.state == TokenizerState::Reading && is_whitespace(self.current_char())
                invariant
                    self.wf(),
                    s == self.spec_file().text(),
                    file == *self.spec_file(),
                    n == s.len(),
                    head <= self.spec_index() <= n,
                    self.spec_state() == state_at(s, self.spec_index()),
                    skip_whitespace(s, head) == skip_whitespace(s, self.spec_index()),
                decreases n - self.spec_index(),
            {
                self.advance();
            }
            let ghost j = self.current_index as int;
            assert(j == skip_whitespace(s, head));
            self.start_position = self.current_position;
            self.start_index = self.current_index;
            if self.state != TokenizerState::Reading {
                self.state = TokenizerState::Done;
                return Some(self.create_token(TokenKind::EndOfFile));
            }
            let c = self.current_char();
            let next = self.next_char();
            if c == '/' && next == '/' {
                self.advance();
                self.advance();
                proof {
                    lemma_scan_bounds(s, j + 2);
                }
                while self.state == TokenizerState::Reading && self.current_char() != '\n' && self.current_char() != EOF
                    invariant
                        self.wf(),
                        s == self.spec_file().text(),
                        file == *self.spec_file(),
                        n == s.len(),
                        j + 2 <= self.spec_index() <= n,
                        self.spec_state() == state_at(s, self.spec_index()),
                        line_comment_end(s, j + 2) == line_comment_end(s, self.spec_index()),
                    decreases n - self.spec_index(),
                {
                    self.advance();
                }
                continue;
            }
            if c == '/' && next == '*' {
                let mut nesting: usize = 1;
                self.advance();
                self.advance();
                proof {
                    lemma_block_comment_bounds(s, j + 2, 1);
                }
                loop
                    invariant
                        self.wf(),
                        s == self.spec_file().text(),
                        file == *self.spec_file(),
                        n == s.len(),
                        j + 2 <= self.spec_index() <= n,
                        self.spec_start_index() == j,
                        self.spec_state() == state_at(s, self.spec_index()),
                        1 <= nesting <= self.spec_index(),
                        block_comment_scan(s, j + 2, 1) == block_comment_scan(s, self.spec_index(), nesting as int),
                        file == *old(self).spec_file(),
                        old(self).spec_state() == TokenizerState::Reading,
                        k0 == old(self).spec_index(),
                        0 <= k0 <= head <= j,
                        j < n,
                        scan(s, k0) == scan(s, head),
                        j == skip_whitespace(s, head),
                        s[j] == '/' && char_at(s, j + 1) == '*',
                    ensures
                        self.wf(),
                        s == self.spec_file().text(),
                        file == *self.spec_file(),
                        self.spec_index() + 1 < n,
                        self.spec_state() == TokenizerState::Reading,
                        block_comment_scan(s, j + 2, 1) == (true, self.spec_index() as int),
                    decreases n - self.spec_index(),
                {
                    let cur = self.current_char();
                    if self.state != TokenizerState::Reading || cur == EOF {
                        let e = self.error_here(
                            "Unterminated block comment".to_owned(),
                            self.start_index,
                            self.current_index,
                            "This block comment is not terminated with '*/'",
                        );
                        return Some(Err(e));
                    }
                    let nx = self.next_char();
                    if cur == '*' && nx == '/' {
                        if nesting == 1 {
                            break;
                        }
                        nesting = nesting - 1;
                    } else if cur == '/' && nx == '*' {
                        nesting = nesting + 1;
                    }
                    self.advance();
                }
                self.advance();
                self.advance();
                self.advance();
                assert(scan(s, head) == scan(s, self.spec_index()));
                continue;
            }
            if c == '/' {
                return Some(self.advance_and_create_token(TokenKind::Slash));
            }
            let single = match c {
                '(' => Some(TokenKind::ParenOpen),
                ')' => Some(TokenKind::ParenClose),
                '{' => Some(TokenKind::BraceOpen),
                '}' => Some(TokenKind::BraceClose),
                '[' => Some(TokenKind::BracketOpen),
                ']' => Some(TokenKind::BracketClose),
                ',' => Some(TokenKind::Comma),
                ';' => Some(TokenKind::Semicolon),
                ':' => Some(TokenKind::Colon),
                '.' => Some(TokenKind::Dot),
                '@' => Some(TokenKind::At),
                '*' => Some(TokenKind::Star),
                '+' => Some(TokenKind::Plus),
                '-' => Some(TokenKind::Minus),
                _ => None,
            };
            if let Some(kind) = single {
                return Some(self.advance_and_create_token(kind));
            }
            let followed = next == '=';
            let comparison = match c {
                '=' => Some(if followed { TokenKind::EqualsEquals } else { TokenKind::Equals }),
                '>' => Some(if followed { TokenKind::GreaterThanEquals } else { TokenKind::GreaterThan }),
                '<' => Some(if followed { TokenKind::LessThanEquals } else { TokenKind::LessThan }),
                '!' => Some(if followed { TokenKind::NotEquals } else { TokenKind::Exclamation }),
                _ => None,
            };
            if let Some(kind) = comparison {
                if followed {
                    self.advance();
                }
                return Some(self.advance_and_create_token(kind));
            }
            if c == '"' {
                self.advance();
                proof {
                    lemma_scan_bounds(s, j + 1);
                }
                while self.current_char() != EOF && self.current_char() != '"'
                    invariant
                        self.wf(),
                        s == self.spec_file().text(),
                        file == *self.spec_file(),
                        n == s.len(),
                        j + 1 <= self.spec_index() <= n,
                        self.spec_start_index() == j,
                        self.spec_state() == state_at(s, self.spec_index()),
                        string_end(s, j + 1) == string_end(s, self.spec_index()),
                    decreases n - self.spec_index(),
                {
                    self.advance();
                }
                if self.current_char() == EOF {
                    let e = self.error_here(
                        "Unterminated string".to_owned(),
                        self.current_index,
                        self.current_index,
                        "This string requires a terminating \" character here",
                    );
                    return Some(Err(e));
                }
                self.advance();
                return Some(self.create_token(TokenKind::String));
            }
            if '0' <= c && c <= '9' {
                self.advance();
                proof {
                    lemma_scan_bounds(s, j + 1);
                }
                while self.state == TokenizerState::Reading && '0' <= self.current_char() && self.current_char() <= '9'
                    invariant
                        self.wf(),
                        s == self.spec_file().text(),
                        file == *self.spec_file(),
                        n == s.len(),
                        j + 1 <= self.spec_index() <= n,
                        self.spec_state() == state_at(s, self.spec_index()),
                        self.spec_start_index() == j,
                        digits_end(s, j + 1) == digits_end(s, self.spec_index()),
                    decreases n - self.spec_index(),
                {
                    self.advance();
                }
                return Some(self.create_token(TokenKind::Integer));
            }
            if ('a' <= c && c <= 'z') || ('A' <= c && c <= 'Z') || c == '_' {
                self.advance();
                proof {
                    lemma_scan_bounds(s, j + 1);
                }
                while self.state == TokenizerState::Reading && (is_alphanumeric(self.current_char())
                    || self.current_char() == '_')
                    invariant
                        self.wf(),
                        s == self.spec_file().text(),
                        file == *self.spec_file(),
                        n == s.len(),
                        j + 1 <= self.spec_index() <= n,
                        self.spec_state() == state_at(s, self.spec_index()),
                        self.spec_start_index() == j,
                        identifier_end(s, j + 1) == identifier_end(s, self.spec_index()),
                    decreases n - self.spec_index(),
                {
                    self.advance();
                }
                let kind = self.word_kind_at(self.start_index, self.current_index);
                return Some(self.create_token(kind));
            }
            self.state = TokenizerState::EndOfFile;
            let mut message = "Unexpected character '".to_owned();
            push_char(&mut message, c);
            push_str(&mut message, "'");
            assert(message@ == "Unexpected character '"@ + seq![s[j]] + "'"@);
            assert(scan(s, head) == Lexeme::Unexpected(j));
            let e = self.error_here(message, self.current_index, self.current_index + 1, "This character is not expected here");
            return Some(Err(e));
        }
    }

    /// Everything the remaining calls of `next_token` hand out, in order, until one hands out
    /// nothing; the tokenizer is then done.
    pub fn collect_items(&mut self) -> (r: Vec<Result<Token, EffyError>>)
        requires
            old(self).wf(),
        ensures
            final(self).wf(),
            final(self).spec_file() == old(self).spec_file(),
            final(self).spec_state() == TokenizerState::Done,
            run_items(*old(self).spec_file(), old(self).spec_index(), old(self).spec_state(), r@),
            byte_len(old(self).spec_file().text()) <= isize::MAX,
    {
        let _ = self.source_file.byte_len();
        let ghost s = self.source_file.text();
        let ghost file = *self.source_file;
        let ghost all = handed_out(s, self.current_index as int, self.state);
        let ghost mut done: Seq<Lexeme> = seq![];
        let mut items: Vec<Result<Token, EffyError>> = Vec::new();
        assert(all == done + handed_out(s, self.current_index as int, self.state));
        loop
            invariant
                self.wf(),
                *self.source_file == file,
                s == file.text(),
                items@.len() == done.len(),
                forall|i: int| 0 <= i < done.len() ==> lexeme_item(file, #[trigger] done[i], items@[i]),
                all == done + handed_out(s, self.current_index as int, self.state),
            ensures
                self.wf(),
                *self.source_file == file,
                self.state == TokenizerState::Done,
                items@.len() == all.len(),
                forall|i: int| 0 <= i < all.len() ==> lexeme_item(file, #[trigger] all[i], items@[i]),
            decreases step_rank(s, self.current_index as int, self.state),
        {
            let ghost k = self.current_index as int;
            let ghost st = self.state;
            proof {
                if st == TokenizerState::Reading {
                    lemma_scan_shape(s, k);
                }
            }
            let ghost (k2, st2, found) = next_step(s, k, st);
            match self.next_token() {
                None => {
                    assert(handed_out(s, k, st) == Seq::<Lexeme>::empty());
                    assert(done + Seq::<Lexeme>::empty() =~= done);
                    assert(st == TokenizerState::Done);
                    break;
                },
                Some(item) => {
                    let ghost f = found->0;
                    assert(handed_out(s, k, st) == seq![f] + handed_out(s, k2, st2));
                    items.push(item);
                    proof {
                        assert(done + (seq![f] + handed_out(s, k2, st2)) =~= done.push(f) + handed_out(s, k2, st2));
                        done = done.push(f);
                    }
                },
            }
        }
        items
    }
}

// ---- laws of the token stream ----

proof fn lemma_string_end(s: Seq<char>, k: int)
    requires
        0 <= k <= s.len(),
    ensures
        forall|i: int| k <= i < string_end(s, k) ==> #[trigger] s[i] != '"',
    decreases s.len() - k,
{
    if 0 <= k < s.len() && s[k] != '"' && s[k] != EOF {
        lemma_string_end(s, k + 1);
    }
}

proof fn lemma_identifier_end(s: Seq<char>, k: int)
    requires
        0 <= k <= s.len(),
    ensures
        forall|i: int| k <= i < identifier_end(s, k) ==> alphanumeric(#[trigger] s[i]) || s[i] == '_',
        identifier_end(s, k) == s.len() || !(alphanumeric(s[identifier_end(s, k)]) || s[identifier_end(s, k)] == '_'),
    decreases s.len() - k,
{
    if 0 <= k < s.len() && (alphanumeric(s[k]) || s[k] == '_') {
        lemma_identifier_end(s, k + 1);
    }
}

/// The text of a token has the shape of its kind: a string is quoted, with no quote
/// inside; an integer is the longest run of digits there; a word starts with a letter or
/// `_`, goes on with letters, digits or `_`, is never followed at once by a letter, digit or `_` (the longest such
/// run is one word), and is a keyword exactly when its kind says so; and every token that
/// starts with a letter or `_` is a word.
pub open spec fn token_text_shape(s: Seq<char>, kind: TokenKind, a: int, b: int) -> bool {
    &&& starts_identifier(s[a]) ==> (kind == TokenKind::Identifier || kind == TokenKind::Fun
        || kind == TokenKind::True || kind == TokenKind::False)
    &&& kind == TokenKind::String ==> {
        &&& b - a >= 2 && s[a] == '"' && s[b - 1] == '"'
        &&& forall|i: int| a < i < b - 1 ==> #[trigger] s[i] != '"'
    }
    &&& kind == TokenKind::Integer ==> forall|i: int| a <= i < b ==> '0' <= #[trigger] s[i] <= '9'
    &&& kind == TokenKind::Integer ==> (b == s.len() || !('0' <= s[b] <= '9'))
    &&& (kind == TokenKind::Identifier || kind == TokenKind::Fun || kind == TokenKind::True
        || kind == TokenKind::False) ==> {
        &&& kind == word_kind(s.subrange(a, b))
        &&& starts_identifier(s[a])
        &&& forall|i: int| a < i < b ==> alphanumeric(#[trigger] s[i]) || s[i] == '_'
        &&& b == s.len() || !(alphanumeric(s[b]) || s[b] == '_')
    }
}

proof fn lemma_scan_text(s: Seq<char>, k: int)
    requires
        0 <= k <= s.len(),
    ensures
        scan(s, k) matches Lexeme::Token(kind, a, b) ==> token_text_shape(s, kind, a, b),
    decreases s.len() - k,
{
    lemma_scan_bounds(s, k);
    lemma_scan_shape(s, k);
    let j = skip_whitespace(s, k);
    if j < s.len() {
        let c = s[j];
        let next = char_at(s, j + 1);
        if c == '/' && next == '/' {
            lemma_scan_bounds(s, j + 2);
            lemma_scan_text(s, line_comment_end(s, j + 2));
        } else if c == '/' && next == '*' {
            lemma_block_comment_bounds(s, j + 2, 1);
            let (closed, m) = block_comment_scan(s, j + 2, 1);
            if closed {
                lemma_scan_text(s, if m + 3 < s.len() { m + 3 } else { s.len() as int });
            }
        } else if c == '"' {
            lemma_scan_bounds(s, j + 1);
            lemma_string_end(s, j + 1);
        } else if '0' <= c <= '9' {
            lemma_scan_bounds(s, j + 1);
            lemma_digits_end(s, j + 1);
        } else if starts_identifier(c) {
            lemma_scan_bounds(s, j + 1);
            lemma_identifier_end(s, j + 1);
        }
    }
}

proof fn lemma_stream_shape(s: Seq<char>, k: int, state: TokenizerState)
    requires
        0 <= k <= s.len(),
        state == TokenizerState::Reading ==> k < s.len(),
        state == TokenizerState::EndOfFile ==> k == s.len(),
    ensures
        ({
            let t = token_stream(s, k, state);
            &&& state != TokenizerState::Done ==> t.len() >= 1
            &&& state == TokenizerState::Reading ==> t.len() <= s.len() - k + 1
            &&& state == TokenizerState::EndOfFile ==> t == seq![Lexeme::EndOfInput(k)]
            &&& forall|i: int| 0 <= i < t.len() - 1 ==> #[trigger] t[i] is Token
            &&& t.len() > 0 ==> !(t.last() is Token)
            &&& (t.len() > 0 && t.last() is EndOfInput) ==> t.last() == Lexeme::EndOfInput(s.len() as int)
            &&& forall|i: int|
                0 <= i < t.len() ==> (#[trigger] t[i] matches Lexeme::Token(kind, a, b) ==> token_text_shape(
                    s,
                    kind,
                    a,
                    b,
                ))
        }),
    decreases step_rank(s, k, state),
{
    lemma_stream_step(s, k, state);
    if state == TokenizerState::Reading {
        lemma_scan_shape(s, k);
        lemma_scan_text(s, k);
    }
    let (k2, st2, found) = next_step(s, k, state);
    if let Some(f) = found {
        if f is Token {
            lemma_stream_shape(s, k2, st2);
            let t = token_stream(s, k, state);
            let rest = token_stream(s, k2, st2);
            assert(t.last() == rest.last());
            assert forall|i: int| 0 <= i < t.len() - 1 implies #[trigger] t[i] is Token by {
                if i > 0 {
                    assert(t[i] == rest[i - 1]);
                }
            }
            assert forall|i: int| 0 <= i < t.len() implies (#[trigger] t[i] matches Lexeme::Token(kind, a, b)
                ==> token_text_shape(s, kind, a, b)) by {
                if i > 0 {
                    assert(t[i] == rest[i - 1]);
                }
            }
        }
    }
}

/// What the tokenizer hands out for a whole text, up to the end of the text or the first
/// error: every entry lies inside the text, tokens are not empty and have the shape of
/// their kind, the entries come in order without overlapping, all but the last are
/// tokens, the last is the end of the text (at its length) or an error, and there are at
/// most as many entries as characters, plus one.
pub proof fn law_tokens_of(s: Seq<char>)
    ensures
        tokens_of(s).len() >= 1,
        tokens_of(s).len() <= s.len() + 1,
        forall|i: int| 0 <= i < tokens_of(s).len() ==> lexeme_wf(s, #[trigger] tokens_of(s)[i]),
        forall|i: int|
            0 <= i < tokens_of(s).len() ==> (#[trigger] tokens_of(s)[i] matches Lexeme::Token(kind, a, b)
                ==> token_text_shape(s, kind, a, b)),
        forall|i: int, j: int|
            0 <= i < j < tokens_of(s).len() ==> lexeme_end(#[trigger] tokens_of(s)[i]) <= lexeme_start(
                #[trigger] tokens_of(s)[j],
            ),
        forall|i: int| 0 <= i < tokens_of(s).len() - 1 ==> #[trigger] tokens_of(s)[i] is Token,
        !(tokens_of(s).last() is Token),
        tokens_of(s).last() is EndOfInput ==> tokens_of(s).last() == Lexeme::EndOfInput(s.len() as int),
{
    lemma_stream_shape(s, 0, state_at(s, 0));
    lemma_stream_wf(s, 0, state_at(s, 0));
    lemma_stream_ordered(s, 0, state_at(s, 0));
}

/// Everything successive calls of `next_token`, from index `k` in `state`, hand out, in
/// order, before one hands out nothing: errors included, with the tokens after them.
pub open spec fn handed_out(s: Seq<char>, k: int, state: TokenizerState) -> Seq<Lexeme>
    decreases step_rank(s, k, state),
{
    if !(0 <= k <= s.len()) {
        seq![]
    } else {
        let (k2, st2, found) = next_step(s, k, state);
        match found {
            None => seq![],
            Some(f) => {
                proof {
                    if state == TokenizerState::Reading {
                        lemma_scan_shape(s, k);
                    }
                }
                seq![f] + handed_out(s, k2, st2)
            },
        }
    }
}

/// Every entry is a token or the end of the text: there is no error among them.
pub open spec fn no_errors(t: Seq<Lexeme>) -> bool {
    forall|i: int| 0 <= i < t.len() ==> #[trigger] t[i] is Token || t[i] is EndOfInput
}

proof fn lemma_handed_out(s: Seq<char>, k: int, state: TokenizerState)
    requires
        0 <= k <= s.len(),
    ensures
        ({
            let t = handed_out(s, k, state);
            &&& t.len() <= match state {
                TokenizerState::Reading => s.len() - k + 2,
                TokenizerState::EndOfFile => 1,
                TokenizerState::Done => 0,
            }
            &&& forall|i: int|
                0 <= i < t.len() ==> lexeme_wf(s, #[trigger] t[i]) && k <= lexeme_start(t[i]) <= lexeme_end(t[i])
            &&& forall|i: int, j: int| 0 <= i < j < t.len() ==> lexeme_end(#[trigger] t[i]) <= lexeme_start(#[trigger] t[j])
            &&& forall|i: int|
                0 <= i < t.len() ==> (#[trigger] t[i] matches Lexeme::Token(kind, a, b) ==> token_text_shape(
                    s,
                    kind,
                    a,
                    b,
                ))
            &&& (no_errors(t) && state != TokenizerState::Done && (state == TokenizerState::EndOfFile ==> k
                == s.len())) ==> {
                &&& t.len() >= 1
                &&& t.last() == Lexeme::EndOfInput(s.len() as int)
                &&& forall|i: int| 0 <= i < t.len() - 1 ==> #[trigger] t[i] is Token
            }
        }),
    decreases step_rank(s, k, state),
{
    if state == TokenizerState::Reading {
        lemma_scan_shape(s, k);
        lemma_scan_text(s, k);
    }
    let (k2, st2, found) = next_step(s, k, state);
    if let Some(f) = found {
        lemma_handed_out(s, k2, st2);
        let t = handed_out(s, k, state);
        let rest = handed_out(s, k2, st2);
        assert(t == seq![f] + rest);
        assert(lexeme_end(f) <= k2);
        assert forall|i: int| 0 <= i < t.len() implies lexeme_wf(s, #[trigger] t[i]) && k <= lexeme_start(t[i])
            <= lexeme_end(t[i]) by {
            if i > 0 {
                assert(t[i] == rest[i - 1]);
            }
        }
        assert forall|i: int, j: int| 0 <= i < j < t.len() implies lexeme_end(#[trigger] t[i]) <= lexeme_start(
            #[trigger] t[j],
        ) by {
            assert(t[j] == rest[j - 1]);
            if i > 0 {
                assert(t[i] == rest[i - 1]);
            }
        }
        assert forall|i: int| 0 <= i < t.len() implies (#[trigger] t[i] matches Lexeme::Token(kind, a, b)
            ==> token_text_shape(s, kind, a, b)) by {
            if i > 0 {
                assert(t[i] == rest[i - 1]);
            }
        }
        if no_errors(t) && state != TokenizerState::Done && (state == TokenizerState::EndOfFile ==> k == s.len()) {
            assert forall|i: int| 0 <= i < rest.len() implies #[trigger] rest[i] is Token || rest[i] is EndOfInput by {
                assert(rest[i] == t[i + 1]);
            }
            assert(t[0] == f);
            if f is Token {
                assert(st2 != TokenizerState::Done);
                assert(rest.len() >= 1);
                assert(t.last() == rest.last());
                assert forall|i: int| 0 <= i < t.len() - 1 implies #[trigger] t[i] is Token by {
                    if i > 0 {
                        assert(t[i] == rest[i - 1]);
                    }
                }
            } else {
                assert(rest.len() == 0);
                assert(t.len() == 1);
            }
        }
    }
}

/// The tokenizer ends: from the start of a text, at most its length plus two calls of
/// `next_token` hand something out, and what they hand out, errors included, lies inside
/// the text, in order, without overlapping; a call hands out nothing exactly when the
/// tokenizer is done, and a done tokenizer stays done.
pub proof fn law_tokenizer_ends(s: Seq<char>, k: int, state: TokenizerState)
    ensures
        handed_out(s, 0, state_at(s, 0)).len() <= s.len() + 2,
        forall|i: int|
            0 <= i < handed_out(s, 0, state_at(s, 0)).len() ==> lexeme_wf(
                s,
                #[trigger] handed_out(s, 0, state_at(s, 0))[i],
            ),
        forall|i: int, j: int|
            0 <= i < j < handed_out(s, 0, state_at(s, 0)).len() ==> lexeme_end(
                #[trigger] handed_out(s, 0, state_at(s, 0))[i],
            ) <= lexeme_start(#[trigger] handed_out(s, 0, state_at(s, 0))[j]),
        next_step(s, k, state).2 is None <==> state == TokenizerState::Done,
        state == TokenizerState::Done ==> next_step(s, k, state).1 == TokenizerState::Done,
        state == TokenizerState::Done ==> next_step(s, k, state).0 == k,
{
    lemma_handed_out(s, 0, state_at(s, 0));
}

/// The kind of the token a one-character symbol makes.
pub open spec fn symbol_kind(c: char) -> TokenKind {
    if c == '/' {
        TokenKind::Slash
    } else if single_symbol(c) is Some {
        single_symbol(c)->0
    } else {
        comparison_symbol(c, false)->0
    }
}

/// A text that is one symbol is that symbol's token, then the end of the text.
pub proof fn law_single_symbol(c: char)
    requires
        c == '/' || single_symbol(c) is Some || comparison_symbol(c, false) is Some,
    ensures
        tokens_of(seq![c]) == seq![Lexeme::Token(symbol_kind(c), 0, 1), Lexeme::EndOfInput(1)],
{
    let s = seq![c];
    assert(!white_space(c));
    assert(skip_whitespace(s, 0) == 0);
    assert(char_at(s, 1) == EOF);
    assert(scan(s, 0) == Lexeme::Token(symbol_kind(c), 0, 1));
    lemma_stream_step(s, 0, TokenizerState::Reading);
    lemma_stream_step(s, 1, TokenizerState::EndOfFile);
    assert(tokens_of(s) =~= seq![Lexeme::Token(symbol_kind(c), 0, 1), Lexeme::EndOfInput(1)]);
}

/// A text that is a comparison symbol followed by `=` is the two-character token, then the
/// end of the text.
pub proof fn law_comparison_symbol(c: char)
    requires
        comparison_symbol(c, true) is Some,
    ensures
        tokens_of(seq![c, '=']) == seq![
            Lexeme::Token(comparison_symbol(c, true)->0, 0, 2),
            Lexeme::EndOfInput(2),
        ],
{
    let s = seq![c, '='];
    assert(!white_space(c));
    assert(skip_whitespace(s, 0) == 0);
    assert(char_at(s, 1) == '=');
    assert(scan(s, 0) == Lexeme::Token(comparison_symbol(c, true)->0, 0, 2));
    lemma_stream_step(s, 0, TokenizerState::Reading);
    lemma_stream_step(s, 2, TokenizerState::EndOfFile);
    assert(tokens_of(s) =~= seq![Lexeme::Token(comparison_symbol(c, true)->0, 0, 2), Lexeme::EndOfInput(2)]);
}

/// The items a run of `next_token` calls from index `k` in `state` hands out: one for each
/// entry of `handed_out`, as `next_token` hands it out.
pub open spec fn run_items(file: SourceFile, k: int, state: TokenizerState, items: Seq<Result<Token, EffyError>>) -> bool {
    let h = handed_out(file.text(), k, state);
    &&& items.len() == h.len()
    &&& forall|i: int| 0 <= i < h.len() ==> lexeme_item(file, #[trigger] h[i], items[i])
}

/// The start of a token's span.
pub open spec fn span_start(t: Token) -> int {
    t.spec_span().range.start as int
}

/// The end of a token's span.
pub open spec fn span_end(t: Token) -> int {
    t.spec_span().range.end as int
}

proof fn lemma_byte_span_fits(s: Seq<char>, a: int, b: int)
    requires
        0 <= a <= b <= s.len(),
        byte_len(s) <= isize::MAX,
    ensures
        byte_span(s, a, b).range.start == byte_offset(s, a),
        byte_span(s, a, b).range.end == byte_offset(s, b),
        byte_offset(s, a) <= byte_offset(s, b) <= byte_len(s),
        a < b ==> byte_offset(s, a) < byte_offset(s, b),
        is_char_offset(s, byte_offset(s, a) as int),
        is_char_offset(s, byte_offset(s, b) as int),
        char_index(s, byte_offset(s, a) as int) == a,
        char_index(s, byte_offset(s, b) as int) == b,
{
    lemma_byte_offset_monotone(s, a, b);
    lemma_byte_offset_monotone(s, b, s.len() as int);
    lemma_char_index(s, a);
    lemma_char_index(s, b);
}

/// A whole run of `next_token` calls on a file, from its start until a call hands out
/// nothing: at most the text's length plus two items; every token's span lies inside the
/// text on character boundaries, in order, and is not empty unless it is the end of the
/// file; every token's text has the shape of its kind; and when no item is an error, the
/// last item, and only it, is the end of the file, spanning the text's byte length.
pub proof fn law_token_run(file: SourceFile, items: Seq<Result<Token, EffyError>>)
    requires
        run_items(file, 0, state_at(file.text(), 0), items),
        byte_len(file.text()) <= isize::MAX,
    ensures
        items.len() <= file.text().len() + 2,
        forall|i: int|
            0 <= i < items.len() ==> (#[trigger] items[i] matches Ok(t) ==> {
                &&& 0 <= span_start(t) <= span_end(t) <= byte_len(file.text())
                &&& is_char_offset(file.text(), span_start(t))
                &&& is_char_offset(file.text(), span_end(t))
                &&& t.spec_kind() != TokenKind::EndOfFile ==> span_start(t) < span_end(t) && token_text_shape(
                    file.text(),
                    t.spec_kind(),
                    char_index(file.text(), span_start(t)),
                    char_index(file.text(), span_end(t)),
                )
            }),
        forall|i: int, j: int|
            0 <= i < j < items.len() ==> (#[trigger] items[i] matches Ok(t1) ==> (#[trigger] items[j] matches Ok(
                t2,
            ) ==> span_end(t1) <= span_start(t2))),
        (forall|i: int| 0 <= i < items.len() ==> #[trigger] items[i] is Ok) ==> {
            &&& items.len() >= 1
            &&& items.last() matches Ok(t) && t.spec_kind() == TokenKind::EndOfFile && span_start(t)
                == byte_len(file.text()) && span_end(t) == byte_len(file.text())
            &&& forall|i: int|
                0 <= i < items.len() - 1 ==> (#[trigger] items[i] matches Ok(t) && t.spec_kind()
                    != TokenKind::EndOfFile)
        },
{
    let s = file.text();
    let h = handed_out(s, 0, state_at(s, 0));
    lemma_handed_out(s, 0, state_at(s, 0));
    assert forall|i: int| 0 <= i < items.len() implies (#[trigger] items[i] matches Ok(t) ==> {
        &&& 0 <= span_start(t) <= span_end(t) <= byte_len(s)
        &&& is_char_offset(s, span_start(t))
        &&& is_char_offset(s, span_end(t))
        &&& t.spec_kind() != TokenKind::EndOfFile ==> span_start(t) < span_end(t) && token_text_shape(
            s,
            t.spec_kind(),
            char_index(s, span_start(t)),
            char_index(s, span_end(t)),
        )
    }) by {
        assert(lexeme_item(file, h[i], items[i]));
        assert(lexeme_wf(s, h[i]));
        match h[i] {
            Lexeme::Token(kind, a, b) => {
                lemma_byte_span_fits(s, a, b);
            },
            Lexeme::EndOfInput(j) => {
                lemma_byte_span_fits(s, j, j);
            },
            _ => {},
        }
    }
    assert forall|i: int, j: int| 0 <= i < j < items.len() implies (#[trigger] items[i] matches Ok(t1) ==> (
    #[trigger] items[j] matches Ok(t2) ==> span_end(t1) <= span_start(t2))) by {
        assert(lexeme_item(file, h[i], items[i]));
        assert(lexeme_item(file, h[j], items[j]));
        assert(lexeme_wf(s, h[i]));
        assert(lexeme_wf(s, h[j]));
        let e = lexeme_end(h[i]);
        let b = lexeme_start(h[j]);
        assert(e <= b);
        if items[i] is Ok && items[j] is Ok {
            lemma_byte_span_fits(s, lexeme_start(h[i]), e);
            lemma_byte_span_fits(s, b, lexeme_end(h[j]));
            lemma_byte_offset_monotone(s, e, b);
        }
    }
    if forall|i: int| 0 <= i < items.len() ==> #[trigger] items[i] is Ok {
        assert forall|i: int| 0 <= i < h.len() implies #[trigger] h[i] is Token || h[i] is EndOfInput by {
            assert(lexeme_item(file, h[i], items[i]));
            assert(items[i] is Ok);
        }
        assert(no_errors(h));
        assert(state_at(s, 0) == TokenizerState::EndOfFile ==> s.len() == 0);
        assert(lexeme_item(file, h[h.len() - 1], items[items.len() - 1]));
        lemma_byte_span_fits(s, s.len() as int, s.len() as int);
        assert forall|i: int| 0 <= i < items.len() - 1 implies (#[trigger] items[i] matches Ok(t) && t.spec_kind()
            != TokenKind::EndOfFile) by {
            assert(lexeme_item(file, h[i], items[i]));
            assert(h[i] is Token);
            assert(lexeme_wf(s, h[i]));
        }
    }
}

/// A file that is one symbol (or a comparison followed by `=`): a run of `next_token` hands
/// out that symbol's token over the whole text, shown by its name in quotes, then the end of
/// the file at the text's end, and nothing more.
pub proof fn law_symbol_run(file: SourceFile, items: Seq<Result<Token, EffyError>>, c: char, with_equals: bool)
    requires
        run_items(file, 0, state_at(file.text(), 0), items),
        with_equals ==> comparison_symbol(c, true) is Some && file.text() == seq![c, '='],
        !with_equals ==> (c == '/' || single_symbol(c) is Some || comparison_symbol(c, false) is Some)
            && file.text() == seq![c],
    ensures
        items.len() == 2,
        items[0] matches Ok(t) && t.spec_kind() == (if with_equals {
            comparison_symbol(c, true)->0
        } else {
            symbol_kind(c)
        }) && span_start(t) == 0 && span_end(t) == file.text().len() && kind_name(t.spec_kind()) == seq!['\''] + file.text()
            + seq!['\''],
        items[1] matches Ok(t) && t.spec_kind() == TokenKind::EndOfFile && span_start(t) == file.text().len()
            && span_end(t) == file.text().len(),
{
    let s = file.text();
    let n = s.len() as int;
    let kind = if with_equals { comparison_symbol(c, true)->0 } else { symbol_kind(c) };
    assert(!white_space(c));
    assert(skip_whitespace(s, 0) == 0);
    assert(scan(s, 0) == Lexeme::Token(kind, 0, n));
    assert(state_at(s, 0) == TokenizerState::Reading);
    assert(next_step(s, 0, TokenizerState::Reading) == (n, TokenizerState::EndOfFile, Some(Lexeme::Token(kind, 0, n))));
    assert(handed_out(s, n, TokenizerState::Done) == Seq::<Lexeme>::empty());
    assert(handed_out(s, n, TokenizerState::EndOfFile) == seq![Lexeme::EndOfInput(n)] + Seq::<Lexeme>::empty());
    let h = handed_out(s, 0, TokenizerState::Reading);
    assert(h == seq![Lexeme::Token(kind, 0, n)] + handed_out(s, n, TokenizerState::EndOfFile));
    assert(h[0] == Lexeme::Token(kind, 0, n));
    assert(h[1] == Lexeme::EndOfInput(n));
    assert(lexeme_item(file, h[0], items[0]));
    assert(lexeme_item(file, h[1], items[1]));
    assert(byte_offset(s, 0) == 0);
    assert(byte_offset(s, 1) == 1);
    assert(byte_offset(s, n) == n);
    lemma_kind_name_symbol(c, with_equals);
}

/// The name of the token a symbol makes is the symbol in quotes.
proof fn lemma_kind_name_symbol(c: char, with_equals: bool)
    requires
        with_equals ==> comparison_symbol(c, true) is Some,
        !with_equals ==> (c == '/' || single_symbol(c) is Some || comparison_symbol(c, false) is Some),
    ensures
        with_equals ==> kind_name(comparison_symbol(c, true)->0) == seq!['\'', c, '=', '\''],
        !with_equals ==> kind_name(symbol_kind(c)) == seq!['\'', c, '\''],
{
    reveal_strlit("'('");
    reveal_strlit("')'");
    reveal_strlit("'{'");
    reveal_strlit("'}'");
    reveal_strlit("'['");
    reveal_strlit("']'");
    reveal_strlit("','");
    reveal_strlit("';'");
    reveal_strlit("':'");
    reveal_strlit("'.'");
    reveal_strlit("'@'");
    reveal_strlit("'/'");
    reveal_strlit("'*'");
    reveal_strlit("'+'");
    reveal_strlit("'-'");
    reveal_strlit("'!'");
    reveal_strlit("'='");
    reveal_strlit("'<'");
    reveal_strlit("'>'");
    reveal_strlit("'=='");
    reveal_strlit("'!='");
    reveal_strlit("'<='");
    reveal_strlit("'>='");
    if with_equals {
        assert(kind_name(comparison_symbol(c, true)->0) =~= seq!['\'', c, '=', '\'']);
    } else {
        assert(kind_name(symbol_kind(c)) =~= seq!['\'', c, '\'']);
    }
}

} // verus!
