//! The reports of a test run.

use crate::message::EffyError;
use crate::semantics::TestEventView;
use vstd::prelude::*;

verus! {

/// A report about one test.
pub enum TestEvent {
    TestStarted { test_name: String },
    TestSuccess { test_name: String },
    TestFailed { test_name: String, error: EffyError },
}

/// The mathematical form of a report.
pub open spec fn event_view(e: TestEvent) -> TestEventView {
    match e {
        TestEvent::TestStarted { test_name } => TestEventView::Started(test_name@),
        TestEvent::TestSuccess { test_name } => TestEventView::Success(test_name@),
        TestEvent::TestFailed { test_name, error } => TestEventView::Failed(test_name@, error),
    }
}

/// Receives the reports of a test run as the tests run.
pub trait TestEventSink {
    /// Whether the sink keeps the reports it receives, to be read through `received`. A
    /// verified sink that keeps them says so (as `TestEventLog` does); for other sinks,
    /// such as ones written in plain Rust, nothing is stated of what they received.
    closed spec fn keeps_reports(&self) -> bool {
        false
    }

    /// The reports received so far, in order, for a sink that keeps them.
    closed spec fn received(&self) -> Seq<TestEventView> {
        Seq::empty()
    }

    /// Receives one more report.
    fn on_event(&mut self, event: TestEvent)
        ensures
            final(self).keeps_reports() == old(self).keeps_reports(),
            old(self).keeps_reports() ==> final(self).received() == old(self).received().push(event_view(event)),
    ;
}

/// A sink that keeps every report it receives.
pub struct TestEventLog {
    pub events: Vec<TestEvent>,
}

impl TestEventLog {
    pub fn new() -> (r: Self)
        ensures
            r.events@ == Seq::<TestEvent>::empty(),
    {
        TestEventLog { events: Vec::new() }
    }
}

impl TestEventSink for TestEventLog {
    open spec fn keeps_reports(&self) -> bool {
        true
    }

    open spec fn received(&self) -> Seq<TestEventView> {
        self.events@.map_values(|e: TestEvent| event_view(e))
    }

    fn on_event(&mut self, event: TestEvent) {
        let ghost v = event_view(event);
        self.events.push(event);
        assert(self.events@.map_values(|e: TestEvent| event_view(e)) =~= old(self).events@.map_values(
            |e: TestEvent| event_view(e),
        ).push(v));
    }
}

} // verus!
