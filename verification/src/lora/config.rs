//! Regions and the standard LoRa parameters of the network.

use crate::lora::duty_cycle::budget_of;
use crate::lora::duty_cycle::DutyCycleLimiter;
use vstd::prelude::*;

verus! {

/// Spreading factor.
pub const SPREADING_FACTOR: u8 = 7;

/// Bandwidth in Hz.
pub const BANDWIDTH_HZ: u32 = 125_000;

/// Coding rate denominator (5 means 4/5).
pub const CODING_RATE: u8 = 5;

/// Transmit power in dBm.
pub const TX_POWER: i8 = 14;

/// Preamble length in symbols.
pub const PREAMBLE_LENGTH: u16 = 8;

/// Sync word of a private network.
pub const SYNC_WORD: u8 = 0x12;

/// Largest packet handed to the radio, in bytes.
pub const LORA_MTU: usize = 500;

/// Whether low data rate optimization is on; at SF 7 and 125 kHz it is not.
pub const LOW_DATA_RATE_OPTIMIZE: bool = false;

/// Window over which the duty cycle is measured: one hour, in microseconds.
pub const DUTY_CYCLE_WINDOW_US: u64 = 3_600_000_000;

/// Frequency band region.
#[derive(Debug, Clone, Copy, PartialEq, Eq)]
pub enum Region {
    /// EU 863-870 MHz.
    Eu868,
    /// US 902-928 MHz.
    Us915,
    /// Australia 915-928 MHz.
    Au915,
    /// Asia 920-923 MHz.
    As923,
}

impl Region {
    /// Operating frequency in Hz.
    pub open spec fn frequency_hz(self) -> u32 {
        match self {
            Region::Eu868 => 868_100_000,
            Region::Us915 => 915_000_000,
            Region::Au915 => 915_000_000,
            Region::As923 => 923_200_000,
        }
    }

    /// Duty cycle limit in percent.
    pub open spec fn percent(self) -> u32 {
        match self {
            Region::Eu868 => 1,
            Region::Us915 => 10,
            Region::Au915 => 10,
            Region::As923 => 1,
        }
    }

    /// Operating frequency in Hz.
    pub fn frequency(self) -> (f: u32)
        ensures
            f == self.frequency_hz(),
    {
        match self {
            Region::Eu868 => 868_100_000,
            Region::Us915 => 915_000_000,
            Region::Au915 => 915_000_000,
            Region::As923 => 923_200_000,
        }
    }

    /// Duty cycle limit in percent.
    pub fn duty_cycle_percent(self) -> (p: u32)
        ensures
            p == self.percent(),
    {
        match self {
            Region::Eu868 => 1,
            Region::Us915 => 10,
            Region::Au915 => 10,
            Region::As923 => 1,
        }
    }

    /// A full limiter for this region over a one-hour window: its budget is
    /// `window_us * percent / 100`.
    pub fn duty_cycle_limiter(self) -> (l: DutyCycleLimiter)
        ensures
            l@.wf(),
            l@.window_us == DUTY_CYCLE_WINDOW_US,
            l@.budget_us == DUTY_CYCLE_WINDOW_US * self.percent() / 100,
            l@.budget_us == budget_of(self.percent(), DUTY_CYCLE_WINDOW_US),
            l@.remaining_us == l@.budget_us,
    {
        DutyCycleLimiter::new(self.duty_cycle_percent(), DUTY_CYCLE_WINDOW_US)
    }
}

impl Default for Region {
    /// EU 868.
    fn default() -> (r: Self)
        ensures
            r == Region::Eu868,
    {
        Region::Eu868
    }
}

} // verus!
