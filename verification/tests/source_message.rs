use effy::message::{unansi, SourceLabel, SourceMessage, SourceSnippet};
use effy::span::SourceSpan;

#[test]
fn test_source_message() {
    let mut source_snippet = SourceSnippet::new("hello_world.effy", "fun foo {}", 19, 0);
    source_snippet.add_label(SourceLabel::new(SourceSpan::new(4..7), "test label".to_string()));
    let source_message = SourceMessage::error("test message".to_string(), source_snippet);

    let rendered_message = source_message.render();
    assert_eq!(
        unansi(&rendered_message),
        "error: test message\n   ╭▸ hello_world.effy:19:5\n   │\n19 │ fun foo {}\n   ╰╴    ━━━ test label"
    );
}

use effy::message::{
    create_source_snippet_from_labels, create_source_snippet_from_span, make_source_error, make_source_error_result,
    to_test_string, EffyError, SourceError, SourceMessageLevel,
};
use effy::source::{SourceFile, SourceLocation};

#[test]
fn snippet_from_span_is_the_line() {
    let file = SourceFile::new("f.effy", "first\nsecond line\nthird");
    let mut span = SourceSpan::new(13..17);
    let snippet = create_source_snippet_from_span(&mut span, &file);
    assert_eq!(snippet.source_excerpt(), "second line");
    assert_eq!(snippet.start_line(), 2);
    assert_eq!(snippet.start_offset_in_bytes(), 6);
    assert_eq!(snippet.file_path(), "f.effy");
    assert_eq!(span.start(), 7);
    assert_eq!(span.end(), 11);
    assert!(snippet.labels().is_empty());
}

#[test]
fn snippet_from_labels_spans_all_lines() {
    let file = SourceFile::new("f.effy", "a\nbb\nccc\ndddd");
    let labels = vec![
        SourceLabel::new(SourceSpan::new(5..6), "c".to_string()),
        SourceLabel::new(SourceSpan::new(2..3), "b".to_string()),
    ];
    let snippet = create_source_snippet_from_labels(&file, labels);
    assert_eq!(snippet.source_excerpt(), "bb\nccc");
    assert_eq!(snippet.start_line(), 2);
    assert_eq!(snippet.start_offset_in_bytes(), 2);
    assert_eq!(snippet.labels().len(), 2);
}

#[test]
fn builder_renders_the_labelled_line() {
    let file = SourceFile::new("g.effy", "x;\nfoo(bar);\ny;");
    let error = SourceMessage::error_builder(&file, "Something is off".to_string())
        .label(SourceSpan::new(7..10), "here")
        .build_error();
    assert_eq!(
        to_test_string(&error),
        "error: Something is off\n  ╭▸ g.effy:2:5\n  │\n2 │ foo(bar);\n  ╰╴    ━━━ here\n"
    );
}

#[test]
fn warning_and_info_levels() {
    let mut snippet = SourceSnippet::new("w.effy", "let x", 1, 0);
    snippet.add_label(SourceLabel::new(SourceSpan::new(4..5), "unused".to_string()));
    let warning = SourceMessage::warning("careful".to_string(), snippet);
    assert_eq!(
        unansi(&warning.render()),
        "warning: careful\n  ╭▸ w.effy:1:5\n  │\n1 │ let x\n  ╰╴    ━ unused"
    );
    let mut snippet = SourceSnippet::new("i.effy", "ok", 3, 0);
    snippet.set_labels(vec![SourceLabel::new(SourceSpan::new(0..2), "fine".to_string())]);
    let info = SourceMessage::info("note".to_string(), snippet);
    assert_eq!(
        unansi(&info.render()),
        "info: note\n  ╭▸ i.effy:3:1\n  │\n3 │ ok\n  ╰╴━━ fine"
    );
}

#[test]
fn whole_file_source_error() {
    let file = SourceFile::new("h.effy", "one\ntwo");
    let location = SourceLocation::new(&file, SourceSpan::new(4..7));
    assert_eq!(location.start(), 4);
    assert_eq!(location.end(), 7);
    assert_eq!(location.debug_string(), "h.effy>4+3");
    let error = make_source_error(&file, "bad".to_string(), "this".to_string(), location);
    assert_eq!(
        to_test_string(&EffyError::Source(error)),
        "error: bad\n  ╭▸ h.effy:2:1\n  │\n1 │ one\n2 │ two\n  ╰╴━━━ this\n"
    );
    let location = SourceLocation::new(&file, SourceSpan::new(0..3));
    let result: Result<(), EffyError> = make_source_error_result(&file, "worse".to_string(), "that".to_string(), location);
    match result {
        Err(EffyError::Source(error)) => assert_eq!(
            unansi(&error.source_message.render()),
            "error: worse\n  ╭▸ h.effy:1:1\n  │\n1 │ one\n  │ ━━━ that\n2 │ two\n  ╰╴"
        ),
        _ => panic!("expected a source error"),
    }
}

#[test]
fn message_errors_display_their_text() {
    let error = EffyError::message("plain");
    assert_eq!(error.to_display_string(), "plain");
    assert_eq!(to_test_string(&error), "plain\n");
}

#[test]
fn labels_and_levels() {
    let label = SourceLabel::new(SourceSpan::new(1..4), "lbl".to_string());
    assert_eq!(label.span().start(), 1);
    assert_eq!(label.span().end(), 4);
    assert_eq!(label.label(), "lbl");
    assert!(SourceMessageLevel::Error == SourceMessageLevel::Error);
}

#[test]
fn span_accessors() {
    let span = SourceSpan::new(3..8);
    assert_eq!(span.start(), 3);
    assert_eq!(span.end(), 8);
    assert_eq!(span.len(), 5);
    assert!(!span.is_empty());
    let empty = SourceSpan::new(4..4);
    assert_eq!(empty.len(), 0);
    assert!(empty.is_empty());
    let inverted = SourceSpan::new(6..2);
    assert_eq!(inverted.len(), 0);
    assert!(inverted.is_empty());
}

#[test]
fn unansi_strips_escapes() {
    assert_eq!(unansi("\u{1b}[1mbold\u{1b}[0m plain"), "bold plain");
    assert_eq!(unansi("nothing to strip"), "nothing to strip");
}

#[test]
fn source_error_displays_rendered_message() {
    let mut snippet = SourceSnippet::new("e.effy", "abc", 1, 0);
    snippet.add_label(SourceLabel::new(SourceSpan::new(1..2), "b".to_string()));
    let error = SourceError::new(SourceMessage::error("oops".to_string(), snippet));
    assert_eq!(
        unansi(&error.to_display_string()),
        "error: oops\n  ╭▸ e.effy:1:2\n  │\n1 │ abc\n  ╰╴ ━ b"
    );
    let span: SourceSpan = (2..5).into();
    assert_eq!(span.start(), 2);
    assert_eq!(span.end(), 5);
}
