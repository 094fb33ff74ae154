//! CSMA/CA: listen before talk, with exponential random backoff.
//!
//! Before each transmission attempt the radio's RSSI reading is handed to
//! [`Csma::try_access`]. A reading at or below the threshold means the
//! channel is clear. Otherwise the caller is told to wait a random time
//! drawn from a window that doubles with every retry, or to give up once the
//! retries are used up.

use crate::lora::airtime::pow2;
use crate::text::push_text;
use vstd::prelude::*;
use vstd::string::*;

verus! {

/// Configuration of the channel access procedure.
#[derive(Debug, Clone, Copy)]
pub struct CsmaConfig {
    /// The channel is busy if the RSSI, in dBm, is above this threshold.
    pub rssi_threshold_dbm: i16,
    /// Number of retries before giving up.
    pub max_retries: u8,
    /// Minimum backoff time in milliseconds.
    pub min_backoff_ms: u32,
    /// Maximum backoff time in milliseconds; caps the exponential growth.
    pub max_backoff_ms: u32,
}

/// Errors of the channel access procedure.
#[derive(Debug, Clone, PartialEq, Eq)]
pub enum CsmaError {
    /// A configuration value is out of range; the text names it.
    InvalidConfig(&'static str),
}

/// What to do after sensing the channel.
#[derive(Debug, Clone, PartialEq, Eq)]
#[must_use]
pub enum CsmaResult {
    /// Channel is clear, proceed with transmission.
    Transmit,
    /// Channel is busy, wait before retrying.
    Wait {
        /// Backoff time in milliseconds.
        ms: u32,
    },
    /// Retries are used up, give up on this transmission.
    GiveUp,
}

impl CsmaError {
    /// A sentence that describes the error.
    pub fn describe(&self) -> (s: String)
        ensures
            s@ == "invalid CSMA config: "@ + self->InvalidConfig_0@,
    {
        match self {
            CsmaError::InvalidConfig(msg) => {
                let mut s = String::from_str("invalid CSMA config: ");
                push_text(&mut s, msg);
                s
            },
        }
    }
}

impl CsmaConfig {
    /// The rule that the configuration breaks first, in the order in which
    /// the rules are checked; `None` for a valid configuration.
    pub open spec fn complaint(&self) -> Option<Seq<char>> {
        if self.min_backoff_ms == 0 {
            Some("min_backoff_ms must be > 0"@)
        } else if self.max_backoff_ms < self.min_backoff_ms {
            Some("max_backoff_ms must be >= min_backoff_ms"@)
        } else if self.max_retries == 0 {
            Some("max_retries must be > 0"@)
        } else if self.max_retries > 20 {
            Some("max_retries must be <= 20"@)
        } else if self.rssi_threshold_dbm > -40 {
            Some("rssi_threshold_dbm must be <= -40 dBm"@)
        } else if self.rssi_threshold_dbm < -140 {
            Some("rssi_threshold_dbm must be >= -140 dBm"@)
        } else {
            None
        }
    }

    /// Threshold in `[-140, -40]` dBm, one to twenty retries, a positive
    /// minimum backoff and a maximum backoff not below it.
    pub open spec fn valid(&self) -> bool {
        &&& -140 <= self.rssi_threshold_dbm <= -40
        &&& 1 <= self.max_retries <= 20
        &&& self.min_backoff_ms > 0
        &&& self.max_backoff_ms >= self.min_backoff_ms
    }

    /// The default configuration with another RSSI threshold.
    pub fn with_threshold(rssi_threshold_dbm: i16) -> (c: Self)
        ensures
            c == (CsmaConfig {
                rssi_threshold_dbm,
                max_retries: 5,
                min_backoff_ms: 10,
                max_backoff_ms: 500,
            }),
    {
        CsmaConfig { rssi_threshold_dbm, max_retries: 5, min_backoff_ms: 10, max_backoff_ms: 500 }
    }

    /// Accepts exactly the valid configurations; the error names the first
    /// rule that is broken.
    pub fn validate(&self) -> (r: Result<(), CsmaError>)
        ensures
            r is Ok <==> self.valid(),
            self.valid() <==> self.complaint() is None,
            r is Err ==> self.complaint() == Some(r->Err_0->InvalidConfig_0@),
    {
        if self.min_backoff_ms == 0 {
            return Err(CsmaError::InvalidConfig("min_backoff_ms must be > 0"));
        }
        if self.max_backoff_ms < self.min_backoff_ms {
            return Err(CsmaError::InvalidConfig("max_backoff_ms must be >= min_backoff_ms"));
        }
        if self.max_retries == 0 {
            return Err(CsmaError::InvalidConfig("max_retries must be > 0"));
        }
        if self.max_retries > 20 {
            return Err(CsmaError::InvalidConfig("max_retries must be <= 20"));
        }
        if self.rssi_threshold_dbm > -40 {
            return Err(CsmaError::InvalidConfig("rssi_threshold_dbm must be <= -40 dBm"));
        }
        if self.rssi_threshold_dbm < -140 {
            return Err(CsmaError::InvalidConfig("rssi_threshold_dbm must be >= -140 dBm"));
        }
        Ok(())
    }

    /// Upper end of the backoff window after `retries` busy readings:
    /// `min(min_backoff * 2^(retries + 1), max_backoff)`.
    pub open spec fn window(&self, retries: u8) -> int {
        let grown = self.min_backoff_ms * pow2((retries + 1) as nat);
        if grown < self.max_backoff_ms {
            grown
        } else {
            self.max_backoff_ms as int
        }
    }

    /// Width of the range that the backoff is drawn from; zero if the window
    /// does not reach beyond the minimum.
    pub open spec fn range(&self, retries: u8) -> int {
        if self.window(retries) > self.min_backoff_ms {
            self.window(retries) - self.min_backoff_ms
        } else {
            0
        }
    }
}

impl Default for CsmaConfig {
    /// Threshold -90 dBm, five retries, backoff between 10 and 500 ms.
    fn default() -> (c: Self)
        ensures
            c == (CsmaConfig {
                rssi_threshold_dbm: -90i16,
                max_retries: 5,
                min_backoff_ms: 10,
                max_backoff_ms: 500,
            }),
            c.valid(),
    {
        CsmaConfig { rssi_threshold_dbm: -90, max_retries: 5, min_backoff_ms: 10, max_backoff_ms: 500 }
    }
}

/// The successor of `state` in the linear congruential generator
/// `state * 1664525 + 1013904223` modulo 2^32.
pub open spec fn lcg_next(state: u32) -> u32 {
    ((state * 1664525 + 1013904223) % 0x1_0000_0000) as u32
}

/// `pow2` never shrinks as the exponent grows, and is at least one.
pub proof fn lemma_pow2_monotone(a: nat, b: nat)
    requires
        a <= b,
    ensures
        1 <= pow2(a) <= pow2(b),
    decreases b,
{
    if b == 0 {
    } else if a == b {
        lemma_pow2_monotone((a - 1) as nat, (b - 1) as nat);
    } else {
        lemma_pow2_monotone(a, (b - 1) as nat);
    }
}

/// The state of the channel access procedure: its configuration, the number
/// of busy readings since the last reset, and the random generator's state.
pub struct Csma {
    config: CsmaConfig,
    retries: u8,
    rng_state: u32,
}

/// What [`Csma`] holds, as plain values.
pub struct CsmaModel {
    /// The configuration.
    pub config: CsmaConfig,
    /// Busy readings since the last reset.
    pub retries: u8,
    /// State of the random generator.
    pub rng: u32,
}

impl CsmaModel {
    /// Whether an RSSI reading means that the channel is clear.
    pub open spec fn clear(self, rssi_dbm: i16) -> bool {
        rssi_dbm <= self.config.rssi_threshold_dbm
    }

    /// The backoff that a busy reading draws, in milliseconds: the minimum
    /// if the window does not reach beyond it, else the minimum plus the next
    /// random number reduced modulo the range.
    pub open spec fn backoff_ms(self) -> int {
        let range = self.config.range(self.retries);
        if range == 0 {
            self.config.min_backoff_ms as int
        } else {
            self.config.min_backoff_ms + lcg_next(self.rng) % (range as u32)
        }
    }

    /// The state after a reading, and the verdict.
    pub open spec fn access(self, rssi_dbm: i16) -> (CsmaModel, CsmaResult) {
        if self.clear(rssi_dbm) {
            (self, CsmaResult::Transmit)
        } else if self.retries >= self.config.max_retries {
            (self, CsmaResult::GiveUp)
        } else {
            (
                CsmaModel {
                    config: self.config,
                    retries: (self.retries + 1) as u8,
                    rng: if self.config.range(self.retries) == 0 {
                        self.rng
                    } else {
                        lcg_next(self.rng)
                    },
                },
                CsmaResult::Wait { ms: self.backoff_ms() as u32 },
            )
        }
    }
}

/// The retries never exceed the configured maximum.
pub proof fn lemma_retries_bounded(state: CsmaModel, rssi_dbm: i16)
    requires
        state.retries <= state.config.max_retries,
    ensures
        state.access(rssi_dbm).0.retries <= state.config.max_retries,
        state.access(rssi_dbm).0.config == state.config,
        state.access(rssi_dbm).1 is Wait ==> state.access(rssi_dbm).0.retries == state.retries + 1,
        !(state.access(rssi_dbm).1 is Wait) ==> state.access(rssi_dbm).0 == state,
{
}

/// A backoff is never shorter than the minimum and, in a valid
/// configuration, never longer than the maximum.
pub proof fn lemma_backoff_bounds(state: CsmaModel)
    requires
        state.config.min_backoff_ms <= state.config.max_backoff_ms,
    ensures
        state.config.min_backoff_ms <= state.backoff_ms() <= state.config.max_backoff_ms,
{
    let range = state.config.range(state.retries);
    if range > 0 {
        lemma_pow2_monotone(0, (state.retries + 1) as nat);
        assert(lcg_next(state.rng) % (range as u32) < range);
    }
}

impl View for Csma {
    type V = CsmaModel;

    closed spec fn view(&self) -> CsmaModel {
        CsmaModel { config: self.config, retries: self.retries, rng: self.rng_state }
    }
}

impl Csma {
    /// Starts with no retries and a fixed, non-zero generator state.
    pub fn new(config: CsmaConfig) -> (c: Self)
        ensures
            c@ == (CsmaModel { config, retries: 0, rng: 0x12345678 }),
    {
        Csma { config, retries: 0, rng_state: 0x12345678 }
    }

    /// Seeds the random generator; a zero seed is replaced by one.
    pub fn seed(&mut self, seed: u32)
        ensures
            final(self)@ == (CsmaModel {
                rng: if seed == 0 {
                    1
                } else {
                    seed
                },
                ..old(self)@
            }),
    {
        self.rng_state = if seed == 0 {
            1
        } else {
            seed
        };
    }

    /// Whether an RSSI reading means that the channel is clear: it is at or
    /// below the threshold.
    pub fn is_channel_clear(&self, rssi_dbm: i16) -> (r: bool)
        ensures
            r == self@.clear(rssi_dbm),
    {
        rssi_dbm <= self.config.rssi_threshold_dbm
    }

    /// Decides what to do after an RSSI reading.
    ///
    /// A clear channel always yields `Transmit`, whatever happened before,
    /// and changes nothing. On a busy channel the retries are counted; once
    /// they are used up the verdict is `GiveUp`.
    pub fn try_access(&mut self, rssi_dbm: i16) -> (r: CsmaResult)
        ensures
            (final(self)@, r) == old(self)@.access(rssi_dbm),
            old(self)@.clear(rssi_dbm) ==> r == CsmaResult::Transmit && final(self)@ == old(self)@,
    {
        if self.is_channel_clear(rssi_dbm) {
            CsmaResult::Transmit
        } else if self.retries >= self.config.max_retries {
            CsmaResult::GiveUp
        } else {
            let backoff = self.calculate_backoff();
            self.retries = self.retries + 1;
            CsmaResult::Wait { ms: backoff }
        }
    }

    /// Forgets the retries; to be called after every successful
    /// transmission.
    pub fn reset(&mut self)
        ensures
            final(self)@ == (CsmaModel { retries: 0, ..old(self)@ }),
    {
        self.retries = 0;
    }

    /// Busy readings since the last reset.
    pub fn retries(&self) -> (n: u8)
        ensures
            n == self@.retries,
    {
        self.retries
    }

    /// The configuration.
    pub fn config(&self) -> (c: &CsmaConfig)
        ensures
            *c == self@.config,
    {
        &self.config
    }

    /// Draws the backoff for the next retry.
    pub fn calculate_backoff(&mut self) -> (ms: u32)
        ensures
            ms == old(self)@.backoff_ms(),
            old(self)@.config.range(old(self)@.retries) == 0 ==> ms == old(
                self,
            )@.config.min_backoff_ms,
            old(self)@.config.range(old(self)@.retries) > 0 ==> old(self)@.config.min_backoff_ms
                <= ms < old(self)@.config.window(old(self)@.retries),
            final(self)@ == (CsmaModel {
                rng: if old(self)@.config.range(old(self)@.retries) == 0 {
                    old(self)@.rng
                } else {
                    lcg_next(old(self)@.rng)
                },
                ..old(self)@
            }),
    {
        let min = self.config.min_backoff_ms as u64;
        let max = self.config.max_backoff_ms as u64;
        let doublings: u16 = self.retries as u16 + 1;
        let mut grown: u64 = min;
        let mut i: u16 = 0;
        while i < doublings && grown < max
            invariant
                0 <= i <= doublings,
                grown == min * pow2(i as nat),
                grown < 2 * max || i == 0,
                max <= u32::MAX,
                min <= u32::MAX,
            decreases doublings - i,
        {
            assert(min * (2 * pow2(i as nat)) == 2 * (min * pow2(i as nat))) by (nonlinear_arith);
            grown = grown * 2;
            i = i + 1;
        }
        proof {
            lemma_pow2_monotone(i as nat, doublings as nat);
            assert(min * pow2(i as nat) <= min * pow2(doublings as nat)) by (nonlinear_arith)
                requires
                    pow2(i as nat) <= pow2(doublings as nat),
                    min >= 0,
            ;
        }
        let window: u64 = if grown < max {
            grown
        } else {
            max
        };
        assert(window == self.config.window(self.retries));
        if window <= min {
            return self.config.min_backoff_ms;
        }
        let range: u32 = (window - min) as u32;
        let random = self.next_random();
        self.config.min_backoff_ms + random % range
    }

    /// Advances the random generator and returns its new state.
    pub fn next_random(&mut self) -> (r: u32)
        ensures
            r == lcg_next(old(self)@.rng),
            final(self)@ == (CsmaModel { rng: r, ..old(self)@ }),
    {
        let next: u64 = (self.rng_state as u64 * 1664525 + 1013904223) % 0x1_0000_0000;
        self.rng_state = next as u32;
        self.rng_state
    }
}

impl Default for Csma {
    /// The procedure with the default configuration.
    fn default() -> (c: Self)
        ensures
            c@.retries == 0,
            c@.config.valid(),
    {
        Csma::new(CsmaConfig::default())
    }
}

} // verus!
