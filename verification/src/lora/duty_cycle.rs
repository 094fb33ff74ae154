//! Duty-cycle limiter: a token bucket of airtime.
//!
//! The bucket holds at most `budget_us` microseconds of airtime, the share
//! of the window that the regulator allows. It refills in proportion to the
//! time that has passed and is debited by every transmission.

use crate::time::age;
use crate::time::age_us;
use crate::time::MonotonicClock;
use vstd::prelude::*;

verus! {

/// The bucket as plain values.
pub struct DutyCycleModel {
    /// Airtime allowed per window, in microseconds.
    pub budget_us: u64,
    /// Airtime left, in microseconds.
    pub remaining_us: u64,
    /// When the bucket was last refilled.
    pub last_refill: u64,
    /// Length of the window, in microseconds.
    pub window_us: u64,
}

/// The budget of a window: `window_us * percent / 100`, saturating at
/// `u64::MAX`.
pub open spec fn budget_of(percent: u32, window_us: u64) -> u64 {
    let exact = window_us * percent / 100;
    if exact > u64::MAX {
        u64::MAX
    } else {
        exact as u64
    }
}

impl DutyCycleModel {
    /// `0 <= remaining_us <= budget_us`.
    pub open spec fn wf(self) -> bool {
        self.remaining_us <= self.budget_us
    }

    /// Airtime that flows back into the bucket between the last refill and
    /// `now`: `budget_us * elapsed / window_us`, rounded down.
    pub open spec fn refill_amount(self, now: u64) -> int {
        if self.window_us == 0 {
            0
        } else {
            self.budget_us * age(now, self.last_refill) / (self.window_us as int)
        }
    }

    /// The bucket refilled at `now`. Nothing changes while less than one
    /// microsecond of airtime has flowed back; otherwise the amount is added,
    /// capped at the budget, and the refill time moves to `now`.
    pub open spec fn refilled(self, now: u64) -> Self {
        let amount = self.refill_amount(now);
        if amount <= 0 {
            self
        } else {
            DutyCycleModel {
                remaining_us: if self.remaining_us + amount >= self.budget_us {
                    self.budget_us
                } else {
                    (self.remaining_us + amount) as u64
                },
                last_refill: now,
                ..self
            }
        }
    }

    /// Whether `airtime_us` can be paid at `now`.
    pub open spec fn affords(self, airtime_us: u64, now: u64) -> bool {
        self.refilled(now).remaining_us >= airtime_us
    }

    /// The bucket after an attempt to pay `airtime_us` at `now`: refilled,
    /// and debited if the attempt succeeds.
    pub open spec fn consumed(self, airtime_us: u64, now: u64) -> Self {
        let r = self.refilled(now);
        if r.remaining_us >= airtime_us {
            DutyCycleModel { remaining_us: (r.remaining_us - airtime_us) as u64, ..r }
        } else {
            r
        }
    }
}

/// Refilling keeps the bucket within its budget.
pub proof fn lemma_refill_keeps_wf(m: DutyCycleModel, now: u64)
    requires
        m.wf(),
    ensures
        m.refilled(now).wf(),
        m.refilled(now).budget_us == m.budget_us,
        m.refilled(now).remaining_us >= m.remaining_us,
{
}

/// While the clock stands still a refill changes nothing, so a failed
/// attempt to pay leaves the bucket exactly as it was.
pub proof fn lemma_failed_consume_unchanged(m: DutyCycleModel, airtime_us: u64)
    requires
        m.wf(),
        !m.affords(airtime_us, m.last_refill),
    ensures
        m.consumed(airtime_us, m.last_refill) == m,
{
    assert(age(m.last_refill, m.last_refill) == 0);
    assert(m.budget_us * 0 == 0);
    if m.window_us != 0 {
        assert(0int / (m.window_us as int) == 0);
    }
}

/// Duty-cycle limiter.
pub struct DutyCycleLimiter {
    budget_us: u64,
    remaining_us: u64,
    last_refill: u64,
    window_us: u64,
    clock: MonotonicClock,
}

impl View for DutyCycleLimiter {
    type V = DutyCycleModel;

    closed spec fn view(&self) -> DutyCycleModel {
        DutyCycleModel {
            budget_us: self.budget_us,
            remaining_us: self.remaining_us,
            last_refill: self.last_refill,
            window_us: self.window_us,
        }
    }
}

impl DutyCycleLimiter {
    /// Creates a limiter that allows `duty_cycle_percent` percent of every
    /// window of `window_us` microseconds. The bucket starts full.
    pub fn new(duty_cycle_percent: u32, window_us: u64) -> (l: Self)
        ensures
            l@.wf(),
            l@.budget_us == budget_of(duty_cycle_percent, window_us),
            l@.remaining_us == l@.budget_us,
            l@.window_us == window_us,
    {
        assert((window_us as int) * (duty_cycle_percent as int) <= 0xffff_ffff_ffff_ffff
            * 0xffff_ffff) by (nonlinear_arith)
            requires
                window_us <= 0xffff_ffff_ffff_ffff,
                duty_cycle_percent <= 0xffff_ffff,
        ;
        let exact: u128 = (window_us as u128) * (duty_cycle_percent as u128) / 100;
        let budget_us: u64 = if exact > u64::MAX as u128 {
            u64::MAX
        } else {
            exact as u64
        };
        Self::with_budget(budget_us, window_us)
    }

    /// Creates a limiter from the airtime allowed per window. The bucket
    /// starts full, and its refill time is the clock's reading at creation.
    pub fn with_budget(budget_us: u64, window_us: u64) -> (l: Self)
        ensures
            l@.wf(),
            l@.budget_us == budget_us,
            l@.remaining_us == budget_us,
            l@.window_us == window_us,
    {
        let clock = MonotonicClock::new();
        let now = clock.now();
        DutyCycleLimiter { budget_us, remaining_us: budget_us, last_refill: now, window_us, clock }
    }

    /// The clock that the limiter reads. A time that is handed to the limiter
    /// is a reading of this clock.
    pub closed spec fn spec_clock(&self) -> MonotonicClock {
        self.clock
    }

    /// The clock that the limiter reads.
    pub fn clock(&self) -> (c: &MonotonicClock)
        ensures
            *c == self.spec_clock(),
    {
        &self.clock
    }

    /// The airtime allowed per window, in microseconds.
    pub fn budget(&self) -> (b: u64)
        ensures
            b == self@.budget_us,
    {
        self.budget_us
    }

    /// Refills the bucket for the time passed until `now`.
    pub fn refill_at(&mut self, now: u64)
        requires
            old(self)@.wf(),
        ensures
            final(self)@ == old(self)@.refilled(now),
            final(self)@.wf(),
    {
        if self.window_us == 0 {
            return ;
        }
        let elapsed = age_us(now, self.last_refill);
        assert((self.budget_us as int) * (elapsed as int) <= 0xffff_ffff_ffff_ffff
            * 0xffff_ffff_ffff_ffff) by (nonlinear_arith)
            requires
                self.budget_us <= 0xffff_ffff_ffff_ffff,
                elapsed <= 0xffff_ffff_ffff_ffff,
        ;
        let amount: u128 = (self.budget_us as u128) * (elapsed as u128) / (self.window_us as u128);
        if amount > 0 {
            let room = self.budget_us - self.remaining_us;
            self.remaining_us = if amount >= room as u128 {
                self.budget_us
            } else {
                self.remaining_us + (amount as u64)
            };
            self.last_refill = now;
        }
    }

    /// Tries to pay `airtime_us` at `now`: refills, and debits the bucket if
    /// it holds enough. A refused attempt takes nothing from the bucket.
    pub fn try_consume_at(&mut self, airtime_us: u64, now: u64) -> (allowed: bool)
        requires
            old(self)@.wf(),
        ensures
            allowed == old(self)@.affords(airtime_us, now),
            final(self)@ == old(self)@.consumed(airtime_us, now),
            final(self)@.wf(),
            !allowed ==> final(self)@ == old(self)@.refilled(now),
    {
        self.refill_at(now);
        if self.remaining_us >= airtime_us {
            self.remaining_us = self.remaining_us - airtime_us;
            true
        } else {
            false
        }
    }

    /// The airtime left at `now`, in microseconds, after refilling.
    pub fn remaining_at(&mut self, now: u64) -> (r: u64)
        requires
            old(self)@.wf(),
        ensures
            final(self)@ == old(self)@.refilled(now),
            final(self)@.wf(),
            r == final(self)@.remaining_us,
    {
        self.refill_at(now);
        self.remaining_us
    }

    /// Refills the bucket for the time passed until the clock's reading.
    pub fn refill(&mut self)
        requires
            old(self)@.wf(),
        ensures
            final(self)@.wf(),
            exists|now: u64| final(self)@ == #[trigger] old(self)@.refilled(now),
    {
        let now = self.clock.now();
        self.refill_at(now);
    }

    /// Tries to pay `airtime_us` at the clock's reading; see
    /// [`DutyCycleLimiter::try_consume_at`].
    pub fn try_consume(&mut self, airtime_us: u64) -> (allowed: bool)
        requires
            old(self)@.wf(),
        ensures
            final(self)@.wf(),
            exists|now: u64|
                allowed == old(self)@.affords(airtime_us, now) && final(self)@ == #[trigger] old(
                    self,
                )@.consumed(airtime_us, now),
    {
        let now = self.clock.now();
        self.try_consume_at(airtime_us, now)
    }

    /// The airtime left at the clock's reading; see
    /// [`DutyCycleLimiter::remaining_at`].
    pub fn remaining(&mut self) -> (r: u64)
        requires
            old(self)@.wf(),
        ensures
            final(self)@.wf(),
            r == final(self)@.remaining_us,
            exists|now: u64| final(self)@ == #[trigger] old(self)@.refilled(now),
    {
        let now = self.clock.now();
        self.remaining_at(now)
    }

    /// The airtime left as hundredths of a percent of the budget, without
    /// refilling; zero for an empty budget.
    pub fn remaining_basis_points(&self) -> (p: u32)
        requires
            self@.wf(),
        ensures
            self@.budget_us == 0 ==> p == 0,
            self@.budget_us > 0 ==> p == self@.remaining_us * 10_000 / (self@.budget_us as int),
            p <= 10_000,
    {
        if self.budget_us == 0 {
            return 0;
        }
        let scaled: u128 = (self.remaining_us as u128) * 10_000;
        let p: u128 = scaled / (self.budget_us as u128);
        assert(p <= 10_000) by (nonlinear_arith)
            requires
                p == scaled / (self.budget_us as u128),
                scaled == self.remaining_us * 10_000,
                self.remaining_us <= self.budget_us,
                self.budget_us > 0,
        ;
        p as u32
    }
}

} // verus!
