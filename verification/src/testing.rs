//! A runner that reports test results in the Test Anything Protocol.
//!
//! The runner numbers the tests, counts how they ended and writes one line
//! per test: `ok 3 - name` or `not ok 3 - name`.

use crate::text::decimal;
use crate::text::push_decimal;
use crate::text::push_text;
use vstd::prelude::*;
use vstd::string::*;

verus! {

/// Counts tests and how they ended.
#[derive(Debug, Clone, Copy)]
pub struct TestRunner {
    tests_run: usize,
    tests_passed: usize,
    tests_failed: usize,
}

/// The counters of a runner.
pub struct RunnerModel {
    /// Tests run.
    pub run: usize,
    /// Tests passed.
    pub passed: usize,
    /// Tests failed.
    pub failed: usize,
}

impl View for TestRunner {
    type V = RunnerModel;

    closed spec fn view(&self) -> RunnerModel {
        RunnerModel { run: self.tests_run, passed: self.tests_passed, failed: self.tests_failed }
    }
}

/// The lines that close a report.
pub open spec fn summary_text(counts: RunnerModel) -> Seq<char> {
    "# -----------------------\n# Tests run: "@ + decimal(counts.run as nat) + "\n# Passed: "@
        + decimal(counts.passed as nat) + "\n# Failed: "@ + decimal(counts.failed as nat) + (
    if counts.failed == 0 {
        "\n# Result: PASS"@
    } else {
        "\n# Result: FAIL"@
    })
}

/// The line that reports a test.
pub open spec fn result_line(passed: bool, number: usize, name: Seq<char>) -> Seq<char> {
    (if passed {
        "ok "@
    } else {
        "not ok "@
    }) + decimal(number as nat) + " - "@ + name
}

impl TestRunner {
    /// Every test run has passed or failed.
    pub open spec fn wf(&self) -> bool {
        self@.run == self@.passed + self@.failed
    }

    /// No test run yet.
    pub fn new() -> (r: Self)
        ensures
            r.wf(),
            r@.run == 0,
            r@.passed == 0,
            r@.failed == 0,
    {
        TestRunner { tests_run: 0, tests_passed: 0, tests_failed: 0 }
    }

    /// The two lines that open a report of `planned_tests` tests.
    pub fn header(planned_tests: usize) -> (s: String)
        ensures
            s@ == "TAP version 14\n1.."@ + decimal(planned_tests as nat),
    {
        let mut s = String::from_str("TAP version 14\n1..");
        push_decimal(&mut s, planned_tests as u64);
        s
    }

    /// Counts a test that has ended and returns the line that reports it.
    pub fn record(&mut self, name: &str, passed: bool) -> (line: String)
        requires
            old(self).wf(),
            old(self)@.run < usize::MAX,
        ensures
            final(self).wf(),
            final(self)@.run == old(self)@.run + 1,
            final(self)@.passed == old(self)@.passed + if passed {
                1int
            } else {
                0int
            },
            final(self)@.failed == old(self)@.failed + if passed {
                0int
            } else {
                1int
            },
            line@ == result_line(passed, final(self)@.run, name@),
    {
        self.tests_run = self.tests_run + 1;
        let mut line = String::new();
        if passed {
            self.tests_passed = self.tests_passed + 1;
            push_text(&mut line, "ok ");
        } else {
            self.tests_failed = self.tests_failed + 1;
            push_text(&mut line, "not ok ");
        }
        push_decimal(&mut line, self.tests_run as u64);
        push_text(&mut line, " - ");
        push_text(&mut line, name);
        assert(line@ =~= result_line(passed, self@.run, name@));
        line
    }

    /// Whether a test that was expected to panic has passed: it panicked,
    /// and with the expected message if one was expected.
    pub fn panic_verdict(panicked: bool, message_matches: Option<bool>) -> (passed: bool)
        ensures
            passed == (panicked && (message_matches is None || message_matches == Some(true))),
    {
        panicked && match message_matches {
            None => true,
            Some(m) => m,
        }
    }

    /// Whether the whole run has passed: no test has failed.
    pub fn finish(&self) -> (passed: bool)
        ensures
            passed == (self@.failed == 0),
    {
        self.tests_failed == 0
    }

    /// The lines that close the report.
    pub fn summary(&self) -> (s: String)
        ensures
            s@ == summary_text(self@),
    {
        let mut s = String::from_str("# -----------------------\n# Tests run: ");
        push_decimal(&mut s, self.tests_run as u64);
        push_text(&mut s, "\n# Passed: ");
        push_decimal(&mut s, self.tests_passed as u64);
        push_text(&mut s, "\n# Failed: ");
        push_decimal(&mut s, self.tests_failed as u64);
        if self.tests_failed == 0 {
            push_text(&mut s, "\n# Result: PASS");
        } else {
            push_text(&mut s, "\n# Result: FAIL");
        }
        assert(s@ =~= summary_text(self@));
        s
    }

    /// Number of tests run.
    pub fn tests_run(&self) -> (n: usize)
        ensures
            n == self@.run,
    {
        self.tests_run
    }

    /// Number of tests passed.
    pub fn tests_passed(&self) -> (n: usize)
        ensures
            n == self@.passed,
    {
        self.tests_passed
    }

    /// Number of tests failed.
    pub fn tests_failed(&self) -> (n: usize)
        ensures
            n == self@.failed,
    {
        self.tests_failed
    }
}

impl Default for TestRunner {
    /// No test run yet.
    fn default() -> (r: Self)
        ensures
            r.wf(),
            r@.run == 0,
    {
        TestRunner::new()
    }
}

} // verus!
