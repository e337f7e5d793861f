//! The decisions of the command line program: which command was asked for, how a test
//! run is tallied, and which exit code it ends with.

use crate::message::{is_labelled_error, span_in_text, EffyError, SourceMessage};
use crate::runtime::{runtime_text, unit_view, InterpreterValue, RuntimeView, ValueKind};
use crate::source::SourceFile;
use crate::span::SourceSpan;
use crate::test_event::TestEvent;
use crate::text::{push_str, str_equal};
use crate::value::{Value, ValueView};
use vstd::prelude::*;

verus! {

/// The exit code after a test run with failures.
pub const TEST_FAILURE_EXIT_CODE: i32 = 11;

/// The exit code after an unknown command.
pub const UNKNOWN_COMMAND_EXIT_CODE: i32 = 44;

/// What the command line asks for.
pub enum Command {
    /// No command: nothing to do.
    Nothing,
    /// `version`: print the version.
    Version,
    /// `test`: run the tests of the scripts in the current directory.
    Test,
    /// Any other word.
    Unknown(String),
}

/// The command named by the arguments, the first of which is the program's path.
pub fn parse_command(args: &Vec<String>) -> (r: Command)
    ensures
        args@.len() < 2 ==> r is Nothing,
        args@.len() >= 2 ==> {
            let word = args@[1]@;
            &&& word == "version"@ ==> r is Version
            &&& word == "test"@ ==> r is Test
            &&& (word != "version"@ && word != "test"@) ==> (r matches Command::Unknown(w) && w@ == word)
        },
{
    if args.len() < 2 {
        return Command::Nothing;
    }
    let command = args[1].as_str();
    proof {
        reveal_strlit("version");
        reveal_strlit("test");
        assert("version"@ != "test"@) by {
            assert("version"@[0] != "test"@[0]);
        }
    }
    assert(command@ == args@[1]@);
    if str_equal(command, "version") {
        Command::Version
    } else if str_equal(command, "test") {
        Command::Test
    } else {
        Command::Unknown(command.to_owned())
    }
}

/// A change to a watched file, as the platform reports it; it carries nothing yet.
pub struct FileChangeEvent {}

/// The tally of a test run.
pub struct TestResult {
    pub total_tests: u64,
    pub assertions: u64,
    pub test_failures: Vec<(String, EffyError)>,
}

impl TestResult {
    /// No test run yet.
    pub fn new() -> (r: Self)
        ensures
            r.total_tests == 0,
            r.assertions == 0,
            r.test_failures@ == Seq::<(String, EffyError)>::empty(),
    {
        TestResult { total_tests: 0, assertions: 0, test_failures: Vec::new() }
    }

    /// Counts a report: a started test adds to the total, a failed one is kept with its error.
    pub fn record(&mut self, event: TestEvent)
        requires
            event is TestStarted ==> old(self).total_tests < u64::MAX,
        ensures
            final(self).assertions == old(self).assertions,
            match event {
                TestEvent::TestStarted { .. } => final(self).total_tests == old(self).total_tests + 1
                    && final(self).test_failures@ == old(self).test_failures@,
                TestEvent::TestSuccess { .. } => final(self).total_tests == old(self).total_tests
                    && final(self).test_failures@ == old(self).test_failures@,
                TestEvent::TestFailed { test_name, error } => final(self).total_tests == old(self).total_tests
                    && final(self).test_failures@ == old(self).test_failures@.push((test_name, error)),
            },
    {
        match event {
            TestEvent::TestStarted { .. } => {
                self.total_tests = self.total_tests + 1;
            },
            TestEvent::TestSuccess { .. } => {},
            TestEvent::TestFailed { test_name, error } => {
                self.test_failures.push((test_name, error));
            },
        }
    }

    /// The exit code the run ends with: the failure code when a test failed.
    pub fn exit_code(&self) -> (r: Option<i32>)
        ensures
            r == (if self.test_failures@.len() > 0 {
                Some(TEST_FAILURE_EXIT_CODE)
            } else {
                None
            }),
    {
        if self.test_failures.len() > 0 {
            Some(TEST_FAILURE_EXIT_CODE)
        } else {
            None
        }
    }
}

impl Default for TestResult {
    fn default() -> (r: Self)
        ensures
            r.total_tests == 0,
            r.assertions == 0,
            r.test_failures@ == Seq::<(String, EffyError)>::empty(),
    {
        TestResult::new()
    }
}

/// What `assert` does with its argument in a test run: `true` passes; `false` fails with an
/// error labelling the argument's expression; any other value fails with an error naming it.
pub fn check_assertion(source_file: &SourceFile, argument: &InterpreterValue, argument_span: &SourceSpan) -> (r: Result<
    InterpreterValue,
    EffyError,
>)
    requires
        argument@ == RuntimeView::Primitive(ValueView::Boolean(false)) ==> span_in_text(
            *argument_span,
            source_file.text(),
        ),
    ensures
        match argument@ {
            RuntimeView::Primitive(ValueView::Boolean(true)) => r matches Ok(v) && v@ == unit_view(),
            RuntimeView::Primitive(ValueView::Boolean(false)) => r matches Err(e) && is_labelled_error(
                e,
                *source_file,
                "Assertion failed"@,
                *argument_span,
                "This expression evaluated to 'false'"@,
            ),
            _ => r matches Err(EffyError::Message(m)) && m@ == "argument to assert() call must evaluate boolean, but instead found: '"@
                + runtime_text(argument@) + "'"@,
        },
{
    proof {
        reveal_strlit("Assertion failed");
        reveal_strlit("This expression evaluated to 'false'");
        reveal_strlit("argument to assert() call must evaluate boolean, but instead found: '");
        reveal_strlit("'");
    }
    if let ValueKind::PrimitiveValue(Value::Boolean(value)) = argument.value_kind() {
        if !*value {
            let builder = SourceMessage::error_builder(source_file, "Assertion failed".to_owned()).label(
                argument_span.clone(),
                "This expression evaluated to 'false'",
            );
            proof {
                assert(builder.spec_labels() =~= seq![builder.spec_labels()[0]]);
            }
            return builder.build_error_result();
        }
        return Ok(InterpreterValue::unit());
    }
    let mut message = "argument to assert() call must evaluate boolean, but instead found: '".to_owned();
    let shown = argument.to_display_string();
    push_str(&mut message, shown.as_str());
    push_str(&mut message, "'");
    Err(EffyError::Message(message))
}

} // verus!
