use effy::message::unansi;
use effy::source::SourceFile;
use effy::token::TokenKind;
use effy::tokenize::tokenize;

fn input_to_test_string(input: &str) -> String {
    let source_file = SourceFile::new("test.effy", input);
    let mut tokenizer = tokenize(&source_file);
    let mut test_string = String::new();
    while let Some(token) = tokenizer.next_token() {
        let token = match token {
            Ok(token) => token,
            Err(err) => {
                test_string.push_str(&format!("⚠ ERROR:\n{}\n", unansi(&err.to_display_string())));
                return test_string;
            }
        };
        test_string.push_str(&format!(
            "🧩 {:3}+{:<2} {:14} {}\n",
            token.span().start(),
            token.span().len(),
            token.kind().as_str(),
            token.lexeme(&source_file),
        ));
    }
    test_string
}

fn test_lexer(input: &str, expected: &str) {
    assert_eq!(input_to_test_string(input), expected);
}

fn test_lex_symbol(input: &str) {
    let test_string = input_to_test_string(input);
    let expected = format!("'{}'", input);
    let len = input.len();
    assert_eq!(
        test_string,
        format!("🧩   0+{len}  {expected:14} {input}\n🧩   {len}+0  End of File    \n")
    );
}

#[test]
fn paren_open() {
    test_lex_symbol("(");
}
#[test]
fn paren_close() {
    test_lex_symbol(")");
}
#[test]
fn brace_open() {
    test_lex_symbol("{");
}
#[test]
fn brace_close() {
    test_lex_symbol("}");
}
#[test]
fn bracket_open() {
    test_lex_symbol("[");
}
#[test]
fn bracket_close() {
    test_lex_symbol("]");
}
#[test]
fn semicolon() {
    test_lex_symbol(";");
}
#[test]
fn colon() {
    test_lex_symbol(":");
}
#[test]
fn dot() {
    test_lex_symbol(".");
}
#[test]
fn at() {
    test_lex_symbol("@");
}
#[test]
fn comma() {
    test_lex_symbol(",");
}
#[test]
fn slash() {
    test_lex_symbol("/");
}
#[test]
fn star() {
    test_lex_symbol("*");
}
#[test]
fn plus() {
    test_lex_symbol("+");
}
#[test]
fn minus() {
    test_lex_symbol("-");
}
#[test]
fn exclamation() {
    test_lex_symbol("!");
}
#[test]
fn equals() {
    test_lex_symbol("=");
}
#[test]
fn equals_equals() {
    test_lex_symbol("==");
}
#[test]
fn not_equals() {
    test_lex_symbol("!=");
}
#[test]
fn less_than() {
    test_lex_symbol("<");
}
#[test]
fn less_than_equals() {
    test_lex_symbol("<=");
}
#[test]
fn greater_than() {
    test_lex_symbol(">");
}
#[test]
fn greater_than_equals() {
    test_lex_symbol(">=");
}

#[test]
fn empty() {
    test_lexer("", "🧩   0+0  End of File    \n");
}

#[test]
fn block_comment_small() {
    test_lexer("/**/", "🧩   4+0  End of File    \n");
}

#[test]
fn block_comment_bigger() {
    test_lexer("/* * */", "🧩   7+0  End of File    \n");
}

#[test]
fn block_comment_nested() {
    test_lexer("/* /* * */ */", "🧩  13+0  End of File    \n");
}

#[test]
fn line_comment_simple() {
    test_lexer("// foo", "🧩   6+0  End of File    \n");
}

#[test]
fn line_comment_newline() {
    test_lexer(
        "// foo\nbar",
        "🧩   7+3  Identifier     bar\n🧩  10+0  End of File    \n",
    );
}

#[test]
fn parens() {
    test_lexer(
        "()",
        "🧩   0+1  '('            (\n🧩   1+1  ')'            )\n🧩   2+0  End of File    \n",
    );
}

#[test]
fn integer_0() {
    test_lexer("0", "🧩   0+1  Integer        0\n🧩   1+0  End of File    \n");
}

#[test]
fn integer_19() {
    test_lexer(
        "19;",
        "🧩   0+2  Integer        19\n🧩   2+1  ';'            ;\n🧩   3+0  End of File    \n",
    );
}

#[test]
fn integer_12345667890() {
    test_lexer(
        "1234567890",
        "🧩   0+10 Integer        1234567890\n🧩  10+0  End of File    \n",
    );
}

#[test]
fn literal_true() {
    test_lexer("true", "🧩   0+4  keyword true   true\n🧩   4+0  End of File    \n");
}

#[test]
fn literal_false() {
    test_lexer("false", "🧩   0+5  keyword false  false\n🧩   5+0  End of File    \n");
}

#[test]
fn string_empty() {
    test_lexer("\"\"", "🧩   0+2  String         \"\"\n🧩   2+0  End of File    \n");
}

#[test]
fn string_one_char() {
    test_lexer("\"x\"", "🧩   0+3  String         \"x\"\n🧩   3+0  End of File    \n");
}

#[test]
fn string_multiple_chars() {
    test_lexer(
        "\"hello\"",
        "🧩   0+7  String         \"hello\"\n🧩   7+0  End of File    \n",
    );
}

#[test]
fn string_astronaut() {
    test_lexer(
        "\"👨‍🚀\"",
        "🧩   0+13 String         \"👨‍🚀\"\n🧩  13+0  End of File    \n",
    );
}

#[test]
fn fun() {
    test_lexer("fun ", "🧩   0+3  keyword fun    fun\n🧩   4+0  End of File    \n");
}

#[test]
fn identifier() {
    test_lexer("foobar", "🧩   0+6  Identifier     foobar\n🧩   6+0  End of File    \n");
}

#[test]
fn triple_equals() {
    test_lexer(
        "===",
        "🧩   0+2  '=='           ==\n🧩   2+1  '='            =\n🧩   3+0  End of File    \n",
    );
}

#[test]
fn quadruple_equals() {
    test_lexer(
        "====",
        "🧩   0+2  '=='           ==\n🧩   2+2  '=='           ==\n🧩   4+0  End of File    \n",
    );
}

#[test]
fn function() {
    test_lexer(
        "fun foo() {}",
        "🧩   0+3  keyword fun    fun\n🧩   4+3  Identifier     foo\n🧩   7+1  '('            (\n🧩   8+1  ')'            )\n🧩  10+1  '{'            {\n🧩  11+1  '}'            }\n🧩  12+0  End of File    \n",
    );
}

#[test]
fn function_call() {
    test_lexer(
        "print(\"hello\");",
        "🧩   0+5  Identifier     print\n🧩   5+1  '('            (\n🧩   6+7  String         \"hello\"\n🧩  13+1  ')'            )\n🧩  14+1  ';'            ;\n🧩  15+0  End of File    \n",
    );
}

#[test]
fn unterminated_string() {
    test_lexer(
        "\"foo",
        "⚠ ERROR:\nerror: Unterminated string\n  ╭▸ test.effy:1:5\n  │\n1 │ \"foo\n  ╰╴    ━ This string requires a terminating \" character here\n",
    );
}

#[test]
fn unterminated_block_comment() {
    test_lexer(
        "/*",
        "⚠ ERROR:\nerror: Unterminated block comment\n  ╭▸ test.effy:1:1\n  │\n1 │ /*\n  ╰╴━━ This block comment is not terminated with '*/'\n",
    );
}

#[test]
fn unterminated_block_comment_multiline() {
    test_lexer(
        "/*\nfoo\nbar\n",
        "⚠ ERROR:\nerror: Unterminated block comment\n  ╭▸ test.effy:1:1\n  │\n1 │ ┏ /*\n2 │ ┃ foo\n3 │ ┃ bar\n  ╰╴┗━━━━┛ This block comment is not terminated with '*/'\n",
    );
}

#[test]
fn unexpected() {
    test_lexer(
        "\n\n👨‍🚀",
        "⚠ ERROR:\nerror: Unexpected character '👨'\n  ╭▸ test.effy:3:1\n  │\n3 │ 👨🚀\n  ╰╴━━ This character is not expected here\n",
    );
}

#[test]
fn unicode_white_space_is_skipped() {
    test_lexer(
        "\u{3000}x\u{a0}\u{2003}y",
        "🧩   3+1  Identifier     x\n🧩   9+1  Identifier     y\n🧩  10+0  End of File    \n",
    );
}

#[test]
fn letters_beyond_ascii_continue_a_word() {
    test_lexer("xé", "🧩   0+3  Identifier     xé\n🧩   3+0  End of File    \n");
}

#[test]
fn kind_names_are_distinct() {
    let kinds = [
        TokenKind::Fun, TokenKind::True, TokenKind::False, TokenKind::Identifier,
        TokenKind::ParenOpen, TokenKind::ParenClose, TokenKind::BraceOpen, TokenKind::BraceClose,
        TokenKind::BracketOpen, TokenKind::BracketClose, TokenKind::Comma, TokenKind::Semicolon,
        TokenKind::Colon, TokenKind::Dot, TokenKind::At, TokenKind::Slash, TokenKind::Star,
        TokenKind::Plus, TokenKind::Minus, TokenKind::Exclamation, TokenKind::Equals,
        TokenKind::EqualsEquals, TokenKind::NotEquals, TokenKind::LessThan,
        TokenKind::LessThanEquals, TokenKind::GreaterThan, TokenKind::GreaterThanEquals,
        TokenKind::String, TokenKind::Integer, TokenKind::EndOfFile,
    ];
    for (i, a) in kinds.iter().enumerate() {
        assert!(!a.as_str().is_empty());
        for b in kinds.iter().skip(i + 1) {
            assert_ne!(a.as_str(), b.as_str());
        }
    }
}

#[test]
fn collected_run_ends_with_end_of_file() {
    let source_file = SourceFile::new("test.effy", "fun ");
    let mut tokenizer = tokenize(&source_file);
    let items = tokenizer.collect_items();
    assert_eq!(items.len(), 2);
    match &items[0] {
        Ok(token) => {
            assert_eq!(token.kind().as_str(), "keyword fun");
            assert_eq!((token.span().start(), token.span().end()), (0, 3));
        }
        Err(_) => panic!("expected a token"),
    }
    match &items[1] {
        Ok(token) => {
            assert_eq!(token.kind().as_str(), "End of File");
            assert_eq!((token.span().start(), token.span().end()), (4, 4));
        }
        Err(_) => panic!("expected the end of the file"),
    }
    assert!(tokenizer.next_token().is_none());
    assert!(tokenizer.next_token().is_none());
}

#[test]
fn collected_run_goes_on_after_an_error() {
    let source_file = SourceFile::new("test.effy", "\"ab");
    let items = tokenize(&source_file).collect_items();
    assert!(items.len() <= "\"ab".len() + 2);
    assert!(items[0].is_err());
    assert!(matches!(items.last(), Some(Ok(token)) if token.kind().as_str() == "End of File"));
}

#[test]
fn token_names_in_errors_are_spelled_out() {
    assert_eq!(TokenKind::ParenClose.token_name(), "Close Parenthesis");
    assert_eq!(TokenKind::ParenOpen.token_name(), "Open Parenthesis");
    assert_eq!(TokenKind::BraceClose.token_name(), "Close Brace");
    assert_eq!(TokenKind::ParenClose.as_str(), "')'");
}
