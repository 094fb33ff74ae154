//! Decisions of the tools that flash a device and watch its output.

use crate::text::chars_of;
use crate::text::contains_text;
use crate::text::decimal;
use crate::text::has_prefix;
use crate::text::occurs;
use crate::text::push_decimal;
use crate::text::push_text;
use vstd::prelude::*;
use vstd::string::*;

verus! {

/// Number of output lines after which watching is given up.
pub const MAX_OUTPUT_LINES: usize = 100_000;

/// Number of read errors in a row after which watching is given up.
pub const MAX_CONSECUTIVE_ERRORS: u32 = 10;

/// Result of the search for the device's serial port.
#[derive(Debug, Clone, PartialEq, Eq)]
pub enum PortResult {
    /// Exactly one port, or the port that the operator named.
    Found(String),
    /// More than one port; the operator has to choose.
    MultipleDevices(Vec<String>),
    /// No port.
    NotFound,
}

/// Errors of flashing.
#[derive(Debug, Clone, PartialEq, Eq)]
pub enum FlashError {
    /// A command could not be run, or the monitor failed; the text says how.
    CommandFailed(String),
    /// The flash tool reported failure.
    FlashFailed,
    /// No device was found.
    NoDevice,
}

impl FlashError {
    /// A sentence that describes the error.
    pub fn describe(&self) -> (s: String)
        ensures
            s@ == match *self {
                FlashError::CommandFailed(e) => "command failed: "@ + e@,
                FlashError::FlashFailed => "flash operation failed"@,
                FlashError::NoDevice => "no ESP32 device found"@,
            },
    {
        match self {
            FlashError::CommandFailed(e) => {
                let mut s = String::from_str("command failed: ");
                push_text(&mut s, e.as_str());
                s
            },
            FlashError::FlashFailed => String::from_str("flash operation failed"),
            FlashError::NoDevice => String::from_str("no ESP32 device found"),
        }
    }
}

/// Chooses the serial port.
///
/// A port that the operator named wins if it is not empty. Otherwise the
/// ports that were found decide: none, the one, or several to choose from.
pub fn get_esp32_port(named: Option<String>, found: Vec<String>) -> (r: PortResult)
    ensures
        named is Some && named->Some_0@.len() > 0 ==> r == PortResult::Found(named->Some_0),
        !(named is Some && named->Some_0@.len() > 0) ==> match r {
            PortResult::NotFound => found@.len() == 0,
            PortResult::Found(port) => found@.len() == 1 && port == found@[0],
            PortResult::MultipleDevices(ports) => found@.len() > 1 && ports == found,
        },
{
    match named {
        Some(port) => {
            if !port.as_str().is_empty() {
                return PortResult::Found(port);
            }
        },
        None => {},
    }
    let mut found = found;
    if found.len() == 0 {
        PortResult::NotFound
    } else if found.len() == 1 {
        PortResult::Found(found.remove(0))
    } else {
        PortResult::MultipleDevices(found)
    }
}

/// The first of the ports that were found, if any.
pub fn find_esp32_port(found: Vec<String>) -> (r: Option<String>)
    ensures
        found@.len() == 0 ==> r is None,
        found@.len() > 0 ==> r == Some(found@[0]),
{
    let mut found = found;
    if found.len() == 0 {
        None
    } else {
        Some(found.remove(0))
    }
}

/// What a read of the device's output brought.
#[derive(Debug, Clone, Copy, PartialEq, Eq, Structural)]
pub enum ReadEvent {
    /// A line that says something.
    Line,
    /// A line that is empty or holds noise only.
    Noise,
    /// The output has ended.
    End,
    /// The read was interrupted; it can be repeated at once.
    Interrupted,
    /// The read failed.
    Failed,
}

/// Why watching the output is given up.
#[derive(Debug, Clone, Copy, PartialEq, Eq, Structural)]
pub enum MonitorStop {
    /// The time allowed has passed.
    Timeout,
    /// More lines than allowed came; the device may be looping.
    TooManyLines,
    /// The output ended before the device was done.
    Ended,
    /// Too many reads failed in a row.
    TooManyErrors,
}

/// What to do with what was read.
#[derive(Debug, Clone, Copy, PartialEq, Eq, Structural)]
pub enum MonitorStep {
    /// Hand the line to the watcher, then read on.
    Deliver,
    /// Read on.
    Continue,
    /// Give up.
    Stop(MonitorStop),
}

/// Counts lines and failed reads while the output of a device is watched.
#[derive(Debug, Clone, Copy)]
pub struct MonitorWatch {
    /// Lines delivered so far.
    pub line_count: usize,
    /// Failed reads since the last successful one.
    pub consecutive_errors: u32,
}

impl MonitorWatch {
    /// Nothing read yet.
    pub fn new() -> (w: Self)
        ensures
            w.line_count == 0,
            w.consecutive_errors == 0,
    {
        MonitorWatch { line_count: 0, consecutive_errors: 0 }
    }

    /// Whether a read may be started: the time allowed has not passed and
    /// the line limit is not reached.
    pub fn before_read(&self, elapsed_secs: u64, timeout_secs: u64) -> (r: Result<(), MonitorStop>)
        ensures
            elapsed_secs > timeout_secs ==> r == Err::<(), MonitorStop>(MonitorStop::Timeout),
            elapsed_secs <= timeout_secs && self.line_count >= MAX_OUTPUT_LINES ==> r == Err::<
                (),
                MonitorStop,
            >(MonitorStop::TooManyLines),
            elapsed_secs <= timeout_secs && self.line_count < MAX_OUTPUT_LINES ==> r is Ok,
    {
        if elapsed_secs > timeout_secs {
            Err(MonitorStop::Timeout)
        } else if self.line_count >= MAX_OUTPUT_LINES {
            Err(MonitorStop::TooManyLines)
        } else {
            Ok(())
        }
    }

    /// Takes in what a read brought.
    ///
    /// A line is counted and delivered. Noise is skipped. Both, like every
    /// successful read, reset the count of failed reads. An interrupted
    /// read counts as nothing. A failed read is counted, and the tenth in a
    /// row stops the watching, as does the end of the output. The counts
    /// saturate.
    pub fn after_read(&mut self, event: ReadEvent) -> (step: MonitorStep)
        ensures
            (*final(self), step) == old(self).judged(event),
    {
        match event {
            ReadEvent::Line => {
                self.consecutive_errors = 0;
                if self.line_count < usize::MAX {
                    self.line_count = self.line_count + 1;
                }
                MonitorStep::Deliver
            },
            ReadEvent::Noise => {
                self.consecutive_errors = 0;
                MonitorStep::Continue
            },
            ReadEvent::End => MonitorStep::Stop(MonitorStop::Ended),
            ReadEvent::Interrupted => MonitorStep::Continue,
            ReadEvent::Failed => {
                if self.consecutive_errors < u32::MAX {
                    self.consecutive_errors = self.consecutive_errors + 1;
                }
                if self.consecutive_errors >= MAX_CONSECUTIVE_ERRORS {
                    MonitorStep::Stop(MonitorStop::TooManyErrors)
                } else {
                    MonitorStep::Continue
                }
            },
        }
    }

    /// The counts after a read, and what to do.
    pub open spec fn judged(self, event: ReadEvent) -> (MonitorWatch, MonitorStep) {
        match event {
            ReadEvent::Line => (
                MonitorWatch {
                    line_count: if self.line_count == usize::MAX {
                        usize::MAX
                    } else {
                        (self.line_count + 1) as usize
                    },
                    consecutive_errors: 0,
                },
                MonitorStep::Deliver,
            ),
            ReadEvent::Noise => (
                MonitorWatch { consecutive_errors: 0, ..self },
                MonitorStep::Continue,
            ),
            ReadEvent::End => (self, MonitorStep::Stop(MonitorStop::Ended)),
            ReadEvent::Interrupted => (self, MonitorStep::Continue),
            ReadEvent::Failed => {
                let errors = if self.consecutive_errors == u32::MAX {
                    u32::MAX
                } else {
                    (self.consecutive_errors + 1) as u32
                };
                (
                    MonitorWatch { consecutive_errors: errors, ..self },
                    if errors >= MAX_CONSECUTIVE_ERRORS {
                        MonitorStep::Stop(MonitorStop::TooManyErrors)
                    } else {
                        MonitorStep::Continue
                    },
                )
            },
        }
    }
}

/// The sentence that says why the watching was given up.
pub open spec fn stop_text(stop: MonitorStop, timeout_secs: u64) -> Seq<char> {
    match stop {
        MonitorStop::Timeout => "Timeout after "@ + decimal(timeout_secs as nat) + " seconds"@,
        MonitorStop::TooManyLines => "Output exceeded "@ + decimal(MAX_OUTPUT_LINES as nat)
            + " lines, possible infinite loop"@,
        MonitorStop::Ended => "Monitor ended without completion"@,
        MonitorStop::TooManyErrors => "Too many consecutive I/O errors ("@ + decimal(
            MAX_CONSECUTIVE_ERRORS as nat,
        ) + ")"@,
    }
}

impl MonitorStop {
    /// A sentence that says why the watching was given up.
    pub fn describe(&self, timeout_secs: u64) -> (s: String)
        ensures
            s@ == stop_text(*self, timeout_secs),
    {
        let mut s = String::new();
        match self {
            MonitorStop::Timeout => {
                push_text(&mut s, "Timeout after ");
                push_decimal(&mut s, timeout_secs);
                push_text(&mut s, " seconds");
            },
            MonitorStop::TooManyLines => {
                push_text(&mut s, "Output exceeded ");
                push_decimal(&mut s, MAX_OUTPUT_LINES as u64);
                push_text(&mut s, " lines, possible infinite loop");
            },
            MonitorStop::Ended => {
                push_text(&mut s, "Monitor ended without completion");
            },
            MonitorStop::TooManyErrors => {
                push_text(&mut s, "Too many consecutive I/O errors (");
                push_decimal(&mut s, MAX_CONSECUTIVE_ERRORS as u64);
                push_text(&mut s, ")");
            },
        }
        s
    }
}

/// How far the tests on a device have come, judging by its output.
#[derive(Debug, Clone, Copy, PartialEq, Eq, Structural)]
pub enum TestState {
    /// The device boots.
    Booting,
    /// The test harness has announced the tests.
    Initialized,
    /// Tests are running.
    Running,
}

/// A crash that the output of a device gives away.
#[derive(Debug, Clone, Copy, PartialEq, Eq, Structural)]
pub enum Crash {
    /// A CPU exception.
    GuruMeditation,
    /// A failed assertion or a call of `abort`.
    Abort,
    /// A stack overflow.
    StackOverflow,
    /// A corrupted stack.
    StackCorruption,
    /// A panic.
    Panic,
    /// A reset by the watchdog timer.
    Watchdog,
    /// A reboot.
    Reboot,
}

impl Crash {
    /// What to tell the operator.
    pub fn reason(&self) -> (s: &'static str)
        ensures
            s@ == match *self {
                Crash::GuruMeditation => "Guru Meditation Error (CPU exception)"@,
                Crash::Abort => "Assertion/abort failure"@,
                Crash::StackOverflow => "Stack overflow detected"@,
                Crash::StackCorruption => "Stack corruption detected"@,
                Crash::Panic => "Panic occurred"@,
                Crash::Watchdog => "Watchdog timer reset (possible hang)"@,
                Crash::Reboot => "Device rebooted (crash detected)"@,
            },
    {
        match self {
            Crash::GuruMeditation => "Guru Meditation Error (CPU exception)",
            Crash::Abort => "Assertion/abort failure",
            Crash::StackOverflow => "Stack overflow detected",
            Crash::StackCorruption => "Stack corruption detected",
            Crash::Panic => "Panic occurred",
            Crash::Watchdog => "Watchdog timer reset (possible hang)",
            Crash::Reboot => "Device rebooted (crash detected)",
        }
    }
}

/// The crash that a line of output gives away, if any. Resets and reboots
/// count as crashes only while tests are running.
pub open spec fn crash_in(line: Seq<char>, state: TestState) -> Option<Crash> {
    if occurs(line, "Guru Meditation Error"@) {
        Some(Crash::GuruMeditation)
    } else if occurs(line, "abort() was called"@) || occurs(line, "assert failed"@) {
        Some(Crash::Abort)
    } else if occurs(line, "stack overflow"@) {
        Some(Crash::StackOverflow)
    } else if occurs(line, "CORRUPTED"@) {
        Some(Crash::StackCorruption)
    } else if occurs(line, "panic"@) && occurs(line, "occurred"@) {
        Some(Crash::Panic)
    } else if state == TestState::Running && (occurs(line, "WDT_SYS_RESET"@) || occurs(
        line,
        "TG0WDT_SYS_RESET"@,
    ) || occurs(line, "TG1WDT_SYS_RESET"@)) {
        Some(Crash::Watchdog)
    } else if state == TestState::Running && (occurs(line, "Rebooting..."@) || "rst:0x"@.is_prefix_of(
        line,
    )) {
        Some(Crash::Reboot)
    } else {
        None
    }
}

/// Looks for the signs of a crash in a line of output.
pub fn check_crash_pattern(line: &str, state: TestState) -> (r: Option<Crash>)
    ensures
        r == crash_in(line@, state),
{
    let chars = chars_of(line);
    if contains_text(&chars, "Guru Meditation Error") {
        return Some(Crash::GuruMeditation);
    }
    if contains_text(&chars, "abort() was called") || contains_text(&chars, "assert failed") {
        return Some(Crash::Abort);
    }
    if contains_text(&chars, "stack overflow") {
        return Some(Crash::StackOverflow);
    }
    if contains_text(&chars, "CORRUPTED") {
        return Some(Crash::StackCorruption);
    }
    if contains_text(&chars, "panic") && contains_text(&chars, "occurred") {
        return Some(Crash::Panic);
    }
    match state {
        TestState::Running => {
            if contains_text(&chars, "WDT_SYS_RESET") || contains_text(&chars, "TG0WDT_SYS_RESET")
                || contains_text(&chars, "TG1WDT_SYS_RESET") {
                return Some(Crash::Watchdog);
            }
            if contains_text(&chars, "Rebooting...") || has_prefix(&chars, "rst:0x") {
                return Some(Crash::Reboot);
            }
            None
        },
        _ => None,
    }
}

/// The state after a line of output: the harness announces the tests with
/// a line that holds `running` and `tests`; the first line that begins with
/// `test ` after that shows that tests are running.
pub open spec fn state_after(line: Seq<char>, state: TestState) -> TestState {
    let announced = if occurs(line, "running"@) && occurs(line, "tests"@) {
        TestState::Initialized
    } else {
        state
    };
    if announced == TestState::Initialized && "test "@.is_prefix_of(line) {
        TestState::Running
    } else {
        announced
    }
}

/// Follows the output of the tests by one line.
pub fn advance_test_state(line: &str, state: TestState) -> (r: TestState)
    ensures
        r == state_after(line@, state),
{
    let chars = chars_of(line);
    let announced = if contains_text(&chars, "running") && contains_text(&chars, "tests") {
        TestState::Initialized
    } else {
        state
    };
    match announced {
        TestState::Initialized => if has_prefix(&chars, "test ") {
            TestState::Running
        } else {
            announced
        },
        _ => announced,
    }
}

/// What a line says about the result of the tests: nothing unless it holds
/// `test result:`; then success if it holds `ok` and not `FAILED`.
pub fn test_result_in(line: &str) -> (r: Option<bool>)
    ensures
        r == if occurs(line@, "test result:"@) {
            Some(occurs(line@, "ok"@) && !occurs(line@, "FAILED"@))
        } else {
            None
        },
{
    let chars = chars_of(line);
    if contains_text(&chars, "test result:") {
        Some(contains_text(&chars, "ok") && !contains_text(&chars, "FAILED"))
    } else {
        None
    }
}

} // verus!
