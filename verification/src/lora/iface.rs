//! The worker that moves packets between the protocol engine and the radio.
//!
//! Radio operations block, so the worker hands them to a blocking task. A
//! task that panics points to wedged hardware: after a few panics in a row
//! the worker gives up.

use crate::lora::config::LORA_MTU;
use vstd::prelude::*;

verus! {

/// Time that a reception listens, in milliseconds.
pub const RX_TIMEOUT_MS: u32 = 50;

/// Pause after a failed radio operation, in milliseconds.
pub const ERROR_BACKOFF_MS: u64 = 100;

/// Number of panics in a row after which the worker shuts down.
pub const MAX_CONSECUTIVE_PANICS: u32 = 3;

/// How a radio operation ended.
#[derive(Debug, Clone, Copy, PartialEq, Eq, Structural)]
pub enum TaskOutcome {
    /// The radio did what was asked.
    Completed,
    /// The radio answered with an error.
    RadioFailed,
    /// The task panicked.
    Panicked,
}

/// Which radio operation ended.
#[derive(Debug, Clone, Copy, PartialEq, Eq, Structural)]
pub enum TaskKind {
    /// A transmission.
    Transmit,
    /// A reception.
    Receive,
}

/// Counts the panics in a row.
#[derive(Debug, Clone, Copy)]
pub struct PanicWatch {
    /// Panics since the radio last answered.
    pub consecutive_panics: u32,
}

impl PanicWatch {
    /// No panic so far.
    pub fn new() -> (w: Self)
        ensures
            w.consecutive_panics == 0,
    {
        PanicWatch { consecutive_panics: 0 }
    }

    /// Whether the worker is to shut down: the limit of panics in a row is
    /// reached.
    pub fn should_stop(&self) -> (r: bool)
        ensures
            r == (self.consecutive_panics >= MAX_CONSECUTIVE_PANICS),
    {
        self.consecutive_panics >= MAX_CONSECUTIVE_PANICS
    }

    /// Takes in how a radio operation ended and returns the pause to make
    /// before the next one, in milliseconds.
    ///
    /// An answer of the radio, be it an error, resets the count; a panic
    /// raises it, saturating. A pause follows a panic and a failed
    /// reception.
    pub fn record(&mut self, kind: TaskKind, outcome: TaskOutcome) -> (pause_ms: u64)
        ensures
            final(self).consecutive_panics == match outcome {
                TaskOutcome::Panicked => if old(self).consecutive_panics == u32::MAX {
                    u32::MAX
                } else {
                    (old(self).consecutive_panics + 1) as u32
                },
                _ => 0u32,
            },
            pause_ms == if outcome == TaskOutcome::Panicked || (outcome == TaskOutcome::RadioFailed
                && kind == TaskKind::Receive) {
                ERROR_BACKOFF_MS
            } else {
                0
            },
    {
        match outcome {
            TaskOutcome::Panicked => {
                if self.consecutive_panics < u32::MAX {
                    self.consecutive_panics = self.consecutive_panics + 1;
                }
                ERROR_BACKOFF_MS
            },
            TaskOutcome::RadioFailed => {
                self.consecutive_panics = 0;
                match kind {
                    TaskKind::Receive => ERROR_BACKOFF_MS,
                    TaskKind::Transmit => 0,
                }
            },
            TaskOutcome::Completed => {
                self.consecutive_panics = 0;
                0
            },
        }
    }
}

/// Why a received packet is not handed to the protocol engine.
#[derive(Debug, Clone, Copy, PartialEq, Eq, Structural)]
pub enum RxReject {
    /// The packet is empty.
    Empty,
    /// The packet is larger than the interface's MTU.
    TooLarge {
        /// Size of the packet in bytes.
        size: usize,
        /// The MTU.
        max: usize,
    },
}

/// Checks the size of a received packet.
pub fn check_received(len: usize) -> (r: Result<(), RxReject>)
    ensures
        len == 0 ==> r == Err::<(), RxReject>(RxReject::Empty),
        len > LORA_MTU ==> r == Err::<(), RxReject>(RxReject::TooLarge { size: len, max: LORA_MTU }),
        1 <= len <= LORA_MTU ==> r is Ok,
{
    if len == 0 {
        Err(RxReject::Empty)
    } else if len > LORA_MTU {
        Err(RxReject::TooLarge { size: len, max: LORA_MTU })
    } else {
        Ok(())
    }
}

/// The MTU of the interface.
pub fn mtu() -> (m: usize)
    ensures
        m == LORA_MTU,
{
    LORA_MTU
}

} // verus!
