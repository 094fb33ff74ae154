//! Monotonic time as plain integers.
//!
//! Every timestamp and duration in this crate is a `u64` count of
//! microseconds. Timestamps are measured from the origin of the
//! [`MonotonicClock`] that produced them; wall-clock time never appears.

use std::time::Duration;
use std::time::Instant;
use vstd::prelude::*;

verus! {

/// Microseconds in one second.
pub const MICROS_PER_SEC: u64 = 1_000_000;

#[verifier::external_type_specification]
#[verifier::external_body]
pub struct ExInstant(Instant);

/// Age of something stamped `then` when the clock reads `now`.
///
/// Saturates at zero, so a clock that jitters backwards never yields a
/// huge age.
pub open spec fn age(now: u64, then: u64) -> nat {
    if now >= then {
        (now - then) as nat
    } else {
        0
    }
}

/// Computes [`age`].
pub fn age_us(now: u64, then: u64) -> (a: u64)
    ensures
        a == age(now, then),
{
    if now >= then {
        now - then
    } else {
        0
    }
}

/// The later of two timestamps.
pub open spec fn later(a: u64, b: u64) -> u64 {
    if a >= b {
        a
    } else {
        b
    }
}

/// Computes [`later`].
pub fn later_of(a: u64, b: u64) -> (r: u64)
    ensures
        r == later(a, b),
{
    if a >= b {
        a
    } else {
        b
    }
}

/// Whole seconds in a span of microseconds, rounded down.
pub open spec fn seconds_in(micros: u64) -> u64 {
    micros / MICROS_PER_SEC
}

/// Computes [`seconds_in`].
pub fn whole_secs(micros: u64) -> (s: u64)
    ensures
        s == micros / MICROS_PER_SEC,
        s == seconds_in(micros),
{
    micros / MICROS_PER_SEC
}

/// Narrows a microsecond count to `u64`, saturating at `u64::MAX`.
pub fn saturate_micros(micros: u128) -> (us: u64)
    ensures
        us == if micros <= u64::MAX { micros as int } else { u64::MAX as int },
{
    if micros <= u64::MAX as u128 {
        micros as u64
    } else {
        u64::MAX
    }
}

/// `std::time::Instant::now`: the current reading of the monotonic clock.
/// Nothing is claimed about the value.
#[verifier::external_body]
fn instant_now() -> (t: Instant) {
    Instant::now()
}

/// `std::time::Instant::elapsed`: the time passed since `t` was taken.
/// Nothing is claimed about the value.
#[verifier::external_body]
fn instant_elapsed(t: &Instant) -> (d: Duration) {
    t.elapsed()
}

/// `std::time::Duration::as_micros`: the whole microseconds in `d`.
/// Nothing is claimed about the value, because a `Duration` is opaque here.
#[verifier::external_body]
fn duration_as_micros(d: &Duration) -> (us: u128) {
    d.as_micros()
}

/// A monotonic clock that reports microseconds since it was started.
pub struct MonotonicClock {
    origin: Instant,
}

impl MonotonicClock {
    /// Starts a clock; its origin is the moment of this call.
    pub fn new() -> (clock: Self) {
        MonotonicClock { origin: instant_now() }
    }

    /// Microseconds since the clock was started, saturating at `u64::MAX`.
    ///
    /// The reading depends on when the call is made, so the contract says
    /// nothing about it; every function that consumes a reading is verified
    /// for all values.
    pub fn now(&self) -> (t: u64) {
        let d = instant_elapsed(&self.origin);
        saturate_micros(duration_as_micros(&d))
    }
}

} // verus!
