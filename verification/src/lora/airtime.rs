//! LoRa time on air.
//!
//! The airtime of a packet is computed exactly, in integers, from the
//! formula of the SX1262 datasheet: a preamble of `preamble + 4.25` symbols
//! followed by the payload symbols, each symbol lasting `2^SF / BW` seconds.
//! Symbols are counted in quarters so that no fraction appears.

use vstd::prelude::*;

verus! {

/// LoRa modulation parameters.
#[derive(Debug, Clone, Copy, PartialEq, Eq)]
pub struct LoRaParams {
    /// Spreading factor (7 to 12).
    pub spreading_factor: u8,
    /// Bandwidth in Hz.
    pub bandwidth_hz: u32,
    /// Coding rate denominator (5 to 8, for 4/5 to 4/8).
    pub coding_rate: u8,
    /// Preamble length in symbols.
    pub preamble_symbols: u8,
    /// Whether the explicit header is sent.
    pub explicit_header: bool,
    /// Whether the payload CRC is sent.
    pub crc_enabled: bool,
}

/// Two to the power `e`.
pub open spec fn pow2(e: nat) -> int
    decreases e,
{
    if e == 0 {
        1
    } else {
        2 * pow2((e - 1) as nat)
    }
}

/// `numerator / denominator` rounded up, and zero for a numerator that is
/// not positive.
pub open spec fn ceil_div_or_zero(numerator: int, denominator: int) -> int
    recommends
        denominator > 0,
{
    if numerator <= 0 {
        0
    } else {
        (numerator + denominator - 1) / denominator
    }
}

impl LoRaParams {
    /// The spreading factor is one that LoRa defines.
    pub open spec fn spreading_factor_in_range(&self) -> bool {
        7 <= self.spreading_factor <= 12
    }

    /// The symbol time exceeds 16 ms, so that low data rate optimization is
    /// required: `2^SF / BW > 0.016`.
    pub open spec fn ldro(&self) -> bool {
        pow2(self.spreading_factor as nat) * 1_000_000 > 16_000 * self.bandwidth_hz
    }

    /// Whole microseconds in one symbol; zero at zero bandwidth.
    pub open spec fn symbol_us(&self) -> int {
        if self.bandwidth_hz == 0 {
            0
        } else {
            pow2(self.spreading_factor as nat) * 1_000_000 / (self.bandwidth_hz as int)
        }
    }

    /// Numerator of the payload symbol count:
    /// `8 PL - 4 SF + 28 + 16 CRC - 20 H`.
    pub open spec fn symbol_numerator(&self, payload_bytes: int) -> int {
        8 * payload_bytes - 4 * self.spreading_factor + 28 + (if self.crc_enabled {
            16int
        } else {
            0int
        }) - (if self.explicit_header {
            0int
        } else {
            20int
        })
    }

    /// Denominator of the payload symbol count: `4 (SF - 2 DE)`.
    pub open spec fn symbol_denominator(&self) -> int {
        4 * (self.spreading_factor - (if self.ldro() {
            2int
        } else {
            0int
        }))
    }

    /// Number of payload symbols: `8 + max(ceil(numerator / denominator), 0) CR`.
    pub open spec fn payload_symbols(&self, payload_bytes: int) -> int {
        8 + ceil_div_or_zero(self.symbol_numerator(payload_bytes), self.symbol_denominator())
            * self.coding_rate
    }

    /// Length of the whole transmission in quarters of a symbol: the
    /// preamble's `preamble + 4.25` symbols and the payload symbols.
    pub open spec fn quarter_symbols(&self, payload_bytes: int) -> int {
        4 * self.preamble_symbols + 17 + 4 * self.payload_symbols(payload_bytes)
    }

    /// Airtime in whole microseconds; zero at zero bandwidth.
    pub open spec fn airtime_us(&self, payload_bytes: int) -> int {
        if self.bandwidth_hz == 0 {
            0
        } else {
            self.quarter_symbols(payload_bytes) * pow2(self.spreading_factor as nat) * 1_000_000
                / (4 * self.bandwidth_hz)
        }
    }

    /// Two to the power of the spreading factor.
    fn chips_per_symbol(&self) -> (c: u64)
        requires
            self.spreading_factor_in_range(),
        ensures
            c == pow2(self.spreading_factor as nat),
            128 <= c <= 4096,
    {
        let mut c: u64 = 1;
        let mut i: u8 = 0;
        while i < self.spreading_factor
            invariant
                0 <= i <= self.spreading_factor <= 12,
                c == pow2(i as nat),
                1 <= c <= 4096,
                i <= 7 ==> c <= 128,
                i >= 7 ==> c >= 128,
                i <= 11 ==> c <= 2048,
            decreases self.spreading_factor - i,
        {
            proof {
                lemma_pow2_small(i as nat);
                lemma_pow2_small((i + 1) as nat);
            }
            c = c * 2;
            i = i + 1;
        }
        c
    }

    /// Whether low data rate optimization is required: the symbol time
    /// exceeds 16 ms.
    pub fn low_data_rate_optimize(&self) -> (r: bool)
        requires
            self.spreading_factor_in_range(),
        ensures
            r == self.ldro(),
    {
        let chips = self.chips_per_symbol();
        chips * 1_000_000 > 16_000 * (self.bandwidth_hz as u64)
    }

    /// Symbol duration in whole microseconds; zero at zero bandwidth.
    pub fn symbol_duration_us(&self) -> (us: u64)
        requires
            self.spreading_factor_in_range(),
        ensures
            us == self.symbol_us(),
    {
        if self.bandwidth_hz == 0 {
            return 0;
        }
        let chips = self.chips_per_symbol();
        chips * 1_000_000 / (self.bandwidth_hz as u64)
    }
}

impl Default for LoRaParams {
    /// SF 7, 125 kHz, coding rate 4/5, preamble 8, explicit header, CRC on.
    fn default() -> (p: Self)
        ensures
            p == (LoRaParams {
                spreading_factor: 7,
                bandwidth_hz: 125_000,
                coding_rate: 5,
                preamble_symbols: 8,
                explicit_header: true,
                crc_enabled: true,
            }),
    {
        LoRaParams {
            spreading_factor: 7,
            bandwidth_hz: 125_000,
            coding_rate: 5,
            preamble_symbols: 8,
            explicit_header: true,
            crc_enabled: true,
        }
    }
}

/// Values of `pow2` up to the twelfth power.
pub proof fn lemma_pow2_small(e: nat)
    requires
        e <= 13,
    ensures
        pow2(e) == if e == 0 {
            1int
        } else if e == 1 {
            2
        } else if e == 2 {
            4
        } else if e == 3 {
            8
        } else if e == 4 {
            16
        } else if e == 5 {
            32
        } else if e == 6 {
            64
        } else if e == 7 {
            128
        } else if e == 8 {
            256
        } else if e == 9 {
            512
        } else if e == 10 {
            1024
        } else if e == 11 {
            2048
        } else if e == 12 {
            4096
        } else {
            8192
        },
    decreases e,
{
    if e > 0 {
        lemma_pow2_small((e - 1) as nat);
    }
}

/// Airtime of a packet of `payload_bytes` bytes in microseconds, rounded
/// down, saturating at `u64::MAX`; zero at zero bandwidth.
pub fn calculate_airtime_us(payload_bytes: usize, params: &LoRaParams) -> (us: u64)
    requires
        params.spreading_factor_in_range(),
    ensures
        us == if params.airtime_us(payload_bytes as int) > u64::MAX {
            u64::MAX as int
        } else {
            params.airtime_us(payload_bytes as int)
        },
{
    if params.bandwidth_hz == 0 {
        return 0;
    }
    let chips: u128 = params.chips_per_symbol() as u128;
    let sf: u128 = params.spreading_factor as u128;
    let ldro = params.low_data_rate_optimize();
    let denominator: u128 = if ldro {
        4 * (sf - 2)
    } else {
        4 * sf
    };
    let plus: u128 = 8 * (payload_bytes as u128) + 28 + (if params.crc_enabled {
        16
    } else {
        0
    });
    let minus: u128 = 4 * sf + (if params.explicit_header {
        0
    } else {
        20
    });
    let ghost numerator = params.symbol_numerator(payload_bytes as int);
    assert(numerator == plus - minus);
    assert(denominator == params.symbol_denominator());
    let groups: u128 = if plus <= minus {
        0
    } else {
        (plus - minus + denominator - 1) / denominator
    };
    assert(groups == ceil_div_or_zero(numerator, denominator as int));
    assert(groups <= plus) by {
        if plus > minus {
            assert((plus - minus + denominator - 1) / (denominator as int) <= plus) by (nonlinear_arith)
                requires
                    denominator >= 20,
                    plus > minus,
                    minus >= 0,
            ;
        }
    }
    let cr: u128 = params.coding_rate as u128;
    assert(groups * cr <= 0x8_0000_0000_0000_002c * 255) by (nonlinear_arith)
        requires
            groups <= 0x8_0000_0000_0000_002c,
            cr <= 255,
    ;
    let symbols: u128 = 8 + groups * cr;
    let quarters: u128 = 4 * (params.preamble_symbols as u128) + 17 + 4 * symbols;
    assert(quarters == params.quarter_symbols(payload_bytes as int));
    assert(quarters * chips <= 0x4000_0000_0000_0000_0000 * 4096) by (nonlinear_arith)
        requires
            quarters <= 0x4000_0000_0000_0000_0000,
            chips <= 4096,
    ;
    let chip_quarters: u128 = quarters * chips;
    let scaled: u128 = chip_quarters * 1_000_000;
    let airtime: u128 = scaled / (4 * (params.bandwidth_hz as u128));
    if airtime > u64::MAX as u128 {
        u64::MAX
    } else {
        airtime as u64
    }
}

} // verus!
