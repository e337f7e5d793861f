//! The tokens of the Effy language.

use crate::source::SourceFile;
use crate::span::SourceSpan;
use crate::text::{char_index, lemma_byte_offset_monotone};
use crate::message::span_in_text;
use vstd::prelude::*;

verus! {

/// The kinds of tokens.
#[derive(Debug, PartialEq, Eq, Copy, Clone, Structural)]
pub enum TokenKind {
    // Keywords
    Fun,
    True,
    False,
    // Identifier
    Identifier,
    // Symbols
    ParenOpen,
    ParenClose,
    BraceOpen,
    BraceClose,
    BracketOpen,
    BracketClose,
    Comma,
    Semicolon,
    Colon,
    Dot,
    At,
    Slash,
    Star,
    Plus,
    Minus,
    Exclamation,
    Equals,
    EqualsEquals,
    NotEquals,
    LessThan,
    LessThanEquals,
    GreaterThan,
    GreaterThanEquals,
    // Literals
    String,
    Integer,
    // End of file
    EndOfFile,
}

/// The name a token kind is displayed with.
pub open spec fn kind_name(kind: TokenKind) -> Seq<char> {
    match kind {
        TokenKind::Fun => "keyword fun"@,
        TokenKind::True => "keyword true"@,
        TokenKind::False => "keyword false"@,
        TokenKind::Identifier => "Identifier"@,
        TokenKind::ParenOpen => "'('"@,
        TokenKind::ParenClose => "')'"@,
        TokenKind::BraceOpen => "'{'"@,
        TokenKind::BraceClose => "'}'"@,
        TokenKind::BracketOpen => "'['"@,
        TokenKind::BracketClose => "']'"@,
        TokenKind::Comma => "','"@,
        TokenKind::Semicolon => "';'"@,
        TokenKind::Colon => "':'"@,
        TokenKind::Dot => "'.'"@,
        TokenKind::At => "'@'"@,
        TokenKind::Slash => "'/'"@,
        TokenKind::Star => "'*'"@,
        TokenKind::Plus => "'+'"@,
        TokenKind::Minus => "'-'"@,
        TokenKind::Exclamation => "'!'"@,
        TokenKind::Equals => "'='"@,
        TokenKind::EqualsEquals => "'=='"@,
        TokenKind::NotEquals => "'!='"@,
        TokenKind::LessThan => "'<'"@,
        TokenKind::LessThanEquals => "'<='"@,
        TokenKind::GreaterThan => "'>'"@,
        TokenKind::GreaterThanEquals => "'>='"@,
        TokenKind::String => "String"@,
        TokenKind::Integer => "Integer"@,
        TokenKind::EndOfFile => "End of File"@,
    }
}

/// The name a token is shown by in parse errors: symbols spelled out in words.
pub open spec fn token_name(kind: TokenKind) -> Seq<char> {
    match kind {
        TokenKind::Fun => "keyword fun"@,
        TokenKind::True => "keyword true"@,
        TokenKind::False => "keyword false"@,
        TokenKind::Identifier => "Identifier"@,
        TokenKind::ParenOpen => "Open Parenthesis"@,
        TokenKind::ParenClose => "Close Parenthesis"@,
        TokenKind::BraceOpen => "Open Brace"@,
        TokenKind::BraceClose => "Close Brace"@,
        TokenKind::BracketOpen => "Open Bracket"@,
        TokenKind::BracketClose => "Close Bracket"@,
        TokenKind::Comma => "Comma"@,
        TokenKind::Semicolon => "Semicolon"@,
        TokenKind::Colon => "Colon"@,
        TokenKind::Dot => "Dot"@,
        TokenKind::At => "At"@,
        TokenKind::Slash => "Slash"@,
        TokenKind::Star => "Star"@,
        TokenKind::Plus => "Plus"@,
        TokenKind::Minus => "Minus"@,
        TokenKind::Exclamation => "Exclamation"@,
        TokenKind::Equals => "Equals"@,
        TokenKind::EqualsEquals => "Equals Equals"@,
        TokenKind::NotEquals => "Not Equals"@,
        TokenKind::LessThan => "Less Than"@,
        TokenKind::LessThanEquals => "Less Than Equals"@,
        TokenKind::GreaterThan => "Greater Than"@,
        TokenKind::GreaterThanEquals => "Greater Than Equals"@,
        TokenKind::String => "String"@,
        TokenKind::Integer => "Integer"@,
        TokenKind::EndOfFile => "End of File"@,
    }
}

/// The kind a displayed name stands for, read from its length and first characters.
spec fn kind_of_name(n: Seq<char>) -> TokenKind {
    if n.len() == 3 {
        if n[1] == '(' {
            TokenKind::ParenOpen
        } else if n[1] == ')' {
            TokenKind::ParenClose
        } else if n[1] == '{' {
            TokenKind::BraceOpen
        } else if n[1] == '}' {
            TokenKind::BraceClose
        } else if n[1] == '[' {
            TokenKind::BracketOpen
        } else if n[1] == ']' {
            TokenKind::BracketClose
        } else if n[1] == ',' {
            TokenKind::Comma
        } else if n[1] == ';' {
            TokenKind::Semicolon
        } else if n[1] == ':' {
            TokenKind::Colon
        } else if n[1] == '.' {
            TokenKind::Dot
        } else if n[1] == '@' {
            TokenKind::At
        } else if n[1] == '/' {
            TokenKind::Slash
        } else if n[1] == '*' {
            TokenKind::Star
        } else if n[1] == '+' {
            TokenKind::Plus
        } else if n[1] == '-' {
            TokenKind::Minus
        } else if n[1] == '!' {
            TokenKind::Exclamation
        } else if n[1] == '=' {
            TokenKind::Equals
        } else if n[1] == '<' {
            TokenKind::LessThan
        } else if n[1] == '>' {
            TokenKind::GreaterThan
        } else {
            TokenKind::Minus
        }
    } else if n.len() == 4 {
        if n[1] == '=' {
            TokenKind::EqualsEquals
        } else if n[1] == '!' {
            TokenKind::NotEquals
        } else if n[1] == '<' {
            TokenKind::LessThanEquals
        } else if n[1] == '>' {
            TokenKind::GreaterThanEquals
        } else {
            TokenKind::GreaterThanEquals
        }
    } else if n.len() == 11 {
        if n[0] == 'k' {
            TokenKind::Fun
        } else {
            TokenKind::EndOfFile
        }
    } else if n.len() == 12 {
        TokenKind::True
    } else if n.len() == 13 {
        TokenKind::False
    } else if n.len() == 10 {
        TokenKind::Identifier
    } else if n.len() == 6 {
        TokenKind::String
    } else {
        TokenKind::Integer
    }
}

/// No two kinds are displayed with the same name, and no name is empty: a kind can be told
/// from its name.
pub proof fn law_kind_name_injective(k1: TokenKind, k2: TokenKind)
    ensures
        kind_name(k1) == kind_name(k2) ==> k1 == k2,
        kind_name(k1).len() > 0,
{
    reveal_strlit("keyword fun");
    reveal_strlit("keyword true");
    reveal_strlit("keyword false");
    reveal_strlit("Identifier");
    reveal_strlit("'('");
    reveal_strlit("')'");
    reveal_strlit("'{'");
    reveal_strlit("'}'");
    reveal_strlit("'['");
    reveal_strlit("']'");
    reveal_strlit("','");
    reveal_strlit("';'");
    reveal_strlit("':'");
    reveal_strlit("'.'");
    reveal_strlit("'@'");
    reveal_strlit("'/'");
    reveal_strlit("'*'");
    reveal_strlit("'+'");
    reveal_strlit("'-'");
    reveal_strlit("'!'");
    reveal_strlit("'='");
    reveal_strlit("'=='");
    reveal_strlit("'!='");
    reveal_strlit("'<'");
    reveal_strlit("'<='");
    reveal_strlit("'>'");
    reveal_strlit("'>='");
    reveal_strlit("String");
    reveal_strlit("Integer");
    reveal_strlit("End of File");
    assert(kind_of_name(kind_name(k1)) == k1);
    assert(kind_of_name(kind_name(k2)) == k2);
}

impl TokenKind {
    /// The name a token of this kind is shown by in parse errors.
    pub fn token_name(&self) -> (r: &'static str)
        ensures
            r@ == token_name(*self),
    {
        match self {
            TokenKind::Fun => "keyword fun",
            TokenKind::True => "keyword true",
            TokenKind::False => "keyword false",
            TokenKind::Identifier => "Identifier",
            TokenKind::ParenOpen => "Open Parenthesis",
            TokenKind::ParenClose => "Close Parenthesis",
            TokenKind::BraceOpen => "Open Brace",
            TokenKind::BraceClose => "Close Brace",
            TokenKind::BracketOpen => "Open Bracket",
            TokenKind::BracketClose => "Close Bracket",
            TokenKind::Comma => "Comma",
            TokenKind::Semicolon => "Semicolon",
            TokenKind::Colon => "Colon",
            TokenKind::Dot => "Dot",
            TokenKind::At => "At",
            TokenKind::Slash => "Slash",
            TokenKind::Star => "Star",
            TokenKind::Plus => "Plus",
            TokenKind::Minus => "Minus",
            TokenKind::Exclamation => "Exclamation",
            TokenKind::Equals => "Equals",
            TokenKind::EqualsEquals => "Equals Equals",
            TokenKind::NotEquals => "Not Equals",
            TokenKind::LessThan => "Less Than",
            TokenKind::LessThanEquals => "Less Than Equals",
            TokenKind::GreaterThan => "Greater Than",
            TokenKind::GreaterThanEquals => "Greater Than Equals",
            TokenKind::String => "String",
            TokenKind::Integer => "Integer",
            TokenKind::EndOfFile => "End of File",
        }
    }

    pub fn as_str(&self) -> (r: &'static str)
        ensures
            r@ == kind_name(*self),
    {
        match self {
            TokenKind::Fun => "keyword fun",
            TokenKind::True => "keyword true",
            TokenKind::False => "keyword false",
            TokenKind::Identifier => "Identifier",
            TokenKind::ParenOpen => "'('",
            TokenKind::ParenClose => "')'",
            TokenKind::BraceOpen => "'{'",
            TokenKind::BraceClose => "'}'",
            TokenKind::BracketOpen => "'['",
            TokenKind::BracketClose => "']'",
            TokenKind::Comma => "','",
            TokenKind::Semicolon => "';'",
            TokenKind::Colon => "':'",
            TokenKind::Dot => "'.'",
            TokenKind::At => "'@'",
            TokenKind::Slash => "'/'",
            TokenKind::Star => "'*'",
            TokenKind::Plus => "'+'",
            TokenKind::Minus => "'-'",
            TokenKind::Exclamation => "'!'",
            TokenKind::Equals => "'='",
            TokenKind::EqualsEquals => "'=='",
            TokenKind::NotEquals => "'!='",
            TokenKind::LessThan => "'<'",
            TokenKind::LessThanEquals => "'<='",
            TokenKind::GreaterThan => "'>'",
            TokenKind::GreaterThanEquals => "'>='",
            TokenKind::String => "String",
            TokenKind::Integer => "Integer",
            TokenKind::EndOfFile => "End of File",
        }
    }
}

/// A token: its kind and the bytes of the source it covers.
pub struct Token {
    kind: TokenKind,
    span: SourceSpan,
}

impl Token {
    pub closed spec fn spec_kind(&self) -> TokenKind {
        self.kind
    }

    pub closed spec fn spec_span(&self) -> SourceSpan {
        self.span
    }

    pub fn new(kind: TokenKind, span: SourceSpan) -> (r: Self)
        ensures
            r.spec_kind() == kind,
            r.spec_span() == span,
    {
        Token { kind, span }
    }

    pub fn kind(&self) -> (r: TokenKind)
        ensures
            r == self.spec_kind(),
    {
        self.kind
    }

    pub fn span(&self) -> (r: &SourceSpan)
        ensures
            *r == self.spec_span(),
    {
        &self.span
    }

    /// The characters of the source the token covers.
    pub fn lexeme(&self, source: &SourceFile) -> (r: String)
        requires
            span_in_text(self.spec_span(), source.text()),
        ensures
            r@ == source.text().subrange(
                char_index(source.text(), self.spec_span().range.start as int),
                char_index(source.text(), self.spec_span().range.end as int),
            ),
    {
        let ghost text = source.text();
        let start = match source.index_of_offset(self.span.start()) {
            Some(k) => k,
            None => {
                assert(false);
                0
            },
        };
        let end = match source.index_of_offset(self.span.end()) {
            Some(k) => k,
            None => {
                assert(false);
                0
            },
        };
        proof {
            crate::text::lemma_char_index(text, start as int);
            crate::text::lemma_char_index(text, end as int);
            if start > end {
                lemma_byte_offset_monotone(text, end as int, start as int);
            }
        }
        source.substring(start, end)
    }
}

impl Clone for Token {
    fn clone(&self) -> (r: Self)
        ensures
            r == *self,
    {
        Token { kind: self.kind, span: self.span.clone() }
    }
}

} // verus!
