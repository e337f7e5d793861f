use effy::cli::{
    check_assertion, parse_command, Command, TestResult, TEST_FAILURE_EXIT_CODE, UNKNOWN_COMMAND_EXIT_CODE,
};
use effy::message::{unansi, EffyError};
use effy::runtime::InterpreterValue;
use effy::source::SourceFile;
use effy::span::SourceSpan;
use effy::test_event::TestEvent;

fn args(words: &[&str]) -> Vec<String> {
    words.iter().map(|w| w.to_string()).collect()
}

#[test]
fn command_nothing() {
    assert!(matches!(parse_command(&args(&["./effy"])), Command::Nothing));
    assert!(matches!(parse_command(&args(&[])), Command::Nothing));
}

#[test]
fn command_version() {
    assert!(matches!(parse_command(&args(&["./effy", "version"])), Command::Version));
}

#[test]
fn command_test() {
    assert!(matches!(parse_command(&args(&["./effy", "test", "extra"])), Command::Test));
}

#[test]
fn command_unknown() {
    match parse_command(&args(&["./effy", "frobnicate"])) {
        Command::Unknown(word) => assert_eq!(word, "frobnicate"),
        _ => panic!("expected an unknown command"),
    }
    assert_eq!(UNKNOWN_COMMAND_EXIT_CODE, 44);
}

#[test]
fn tally_of_a_test_run() {
    let mut result = TestResult::new();
    assert_eq!(result.exit_code(), None);
    result.record(TestEvent::TestStarted { test_name: "a".to_string() });
    result.record(TestEvent::TestSuccess { test_name: "a".to_string() });
    result.record(TestEvent::TestStarted { test_name: "b".to_string() });
    result.record(TestEvent::TestFailed {
        test_name: "b".to_string(),
        error: EffyError::message("assertion failed"),
    });
    assert_eq!(result.total_tests, 2);
    assert_eq!(result.assertions, 0);
    assert_eq!(result.test_failures.len(), 1);
    assert_eq!(result.test_failures[0].0, "b");
    assert_eq!(result.test_failures[0].1.to_display_string(), "assertion failed");
    assert_eq!(result.exit_code(), Some(TEST_FAILURE_EXIT_CODE));
    assert_eq!(TEST_FAILURE_EXIT_CODE, 11);
}

#[test]
fn default_tally_is_empty() {
    let result = TestResult::default();
    assert_eq!(result.total_tests, 0);
    assert!(result.test_failures.is_empty());
}

#[test]
fn assertion_true_passes() {
    let file = SourceFile::new("t.effy", "assert(true);");
    let r = check_assertion(&file, &InterpreterValue::bool(true), &SourceSpan::new(7..11));
    match r {
        Ok(v) => assert_eq!(v.to_display_string(), "unit"),
        Err(_) => panic!("expected success"),
    }
}

#[test]
fn assertion_false_points_at_argument() {
    let file = SourceFile::new("t.effy", "assert(false);");
    let r = check_assertion(&file, &InterpreterValue::bool(false), &SourceSpan::new(7..12));
    let error = match r {
        Ok(_) => panic!("expected an error"),
        Err(error) => error,
    };
    assert_eq!(
        unansi(&error.to_display_string()),
        "error: Assertion failed\n  ╭▸ t.effy:1:8\n  │\n1 │ assert(false);\n  ╰╴       ━━━━━ This expression evaluated to 'false'"
    );
}

#[test]
fn assertion_of_non_boolean() {
    let file = SourceFile::new("t.effy", "assert(1);");
    let r = check_assertion(&file, &InterpreterValue::integer(1), &SourceSpan::new(7..8));
    match r {
        Err(EffyError::Message(m)) => assert_eq!(
            m,
            "argument to assert() call must evaluate boolean, but instead found: '1i64'"
        ),
        _ => panic!("expected a message error"),
    }
}
