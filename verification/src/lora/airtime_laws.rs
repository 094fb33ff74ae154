//! How the airtime moves with payload, bandwidth and spreading factor.

use crate::lora::airtime::ceil_div_or_zero;
use crate::lora::airtime::lemma_pow2_small;
use crate::lora::airtime::pow2;
use crate::lora::airtime::LoRaParams;
use vstd::prelude::*;

verus! {

/// Rounding up never undershoots and overshoots by less than one.
pub proof fn lemma_ceil_div(n: int, d: int)
    requires
        d > 0,
    ensures
        ceil_div_or_zero(n, d) >= 0,
        n <= 0 ==> ceil_div_or_zero(n, d) == 0,
        n > 0 ==> ceil_div_or_zero(n, d) >= 1 && ceil_div_or_zero(n, d) * d >= n && (
        ceil_div_or_zero(n, d) - 1) * d < n,
{
    if n > 0 {
        let c = (n + d - 1) / d;
        assert(c >= 1 && c * d >= n && (c - 1) * d < n) by (nonlinear_arith)
            requires
                n > 0,
                d > 0,
                c == (n + d - 1) / d,
        ;
    }
}

/// Rounding up keeps the order of the numerators.
pub proof fn lemma_ceil_div_numerator(n1: int, n2: int, d: int)
    requires
        d > 0,
        n1 <= n2,
    ensures
        ceil_div_or_zero(n1, d) <= ceil_div_or_zero(n2, d),
{
    lemma_ceil_div(n1, d);
    lemma_ceil_div(n2, d);
    if n1 > 0 {
        let c1 = ceil_div_or_zero(n1, d);
        let c2 = ceil_div_or_zero(n2, d);
        assert(c1 <= c2) by (nonlinear_arith)
            requires
                d > 0,
                (c1 - 1) * d < n1,
                n1 <= n2,
                c2 * d >= n2,
        ;
    }
}

/// Rounding up reverses the order of the denominators.
pub proof fn lemma_ceil_div_denominator(n: int, d1: int, d2: int)
    requires
        0 < d1 <= d2,
    ensures
        ceil_div_or_zero(n, d2) <= ceil_div_or_zero(n, d1),
{
    lemma_ceil_div(n, d1);
    lemma_ceil_div(n, d2);
    if n > 0 {
        let c1 = ceil_div_or_zero(n, d1);
        let c2 = ceil_div_or_zero(n, d2);
        assert(c2 <= c1) by (nonlinear_arith)
            requires
                0 < d1 <= d2,
                c1 >= 1,
                (c2 - 1) * d2 < n,
                c1 * d1 >= n,
        ;
    }
}

/// The denominator of the symbol count is at least 20.
pub proof fn lemma_denominator(p: LoRaParams)
    requires
        p.spreading_factor_in_range(),
    ensures
        20 <= p.symbol_denominator() <= 48,
        p.quarter_symbols(0) >= 49,
{
    lemma_ceil_div(p.symbol_numerator(0), p.symbol_denominator());
    assert(ceil_div_or_zero(p.symbol_numerator(0), p.symbol_denominator()) * p.coding_rate >= 0)
        by (nonlinear_arith)
        requires
            ceil_div_or_zero(p.symbol_numerator(0), p.symbol_denominator()) >= 0,
            p.coding_rate >= 0,
    ;
}

/// Scaling and dividing keeps the order: `a * k / d <= b * k / d`.
proof fn lemma_scale(a: int, b: int, k: int, d: int)
    requires
        a <= b,
        k >= 0,
        d > 0,
    ensures
        a * k / d <= b * k / d,
{
    assert(a * k <= b * k) by (nonlinear_arith)
        requires
            a <= b,
            k >= 0,
    ;
    assert(a * k / d <= b * k / d) by (nonlinear_arith)
        requires
            a * k <= b * k,
            d > 0,
    ;
}

/// A longer payload never takes less airtime.
pub proof fn lemma_airtime_payload(p: LoRaParams, shorter: int, longer: int)
    requires
        p.spreading_factor_in_range(),
        0 <= shorter <= longer,
    ensures
        p.airtime_us(shorter) <= p.airtime_us(longer),
        p.payload_symbols(shorter) <= p.payload_symbols(longer),
{
    lemma_denominator(p);
    let d = p.symbol_denominator();
    lemma_ceil_div_numerator(p.symbol_numerator(shorter), p.symbol_numerator(longer), d);
    let c1 = ceil_div_or_zero(p.symbol_numerator(shorter), d);
    let c2 = ceil_div_or_zero(p.symbol_numerator(longer), d);
    assert(c1 * p.coding_rate <= c2 * p.coding_rate) by (nonlinear_arith)
        requires
            c1 <= c2,
            p.coding_rate >= 0,
    ;
    if p.bandwidth_hz != 0 {
        lemma_pow2_small(p.spreading_factor as nat);
        let k = pow2(p.spreading_factor as nat) * 1_000_000;
        let q1 = p.quarter_symbols(shorter);
        let q2 = p.quarter_symbols(longer);
        lemma_scale(q1, q2, k, 4 * p.bandwidth_hz);
        assert(q1 * pow2(p.spreading_factor as nat) * 1_000_000 == q1 * k) by (nonlinear_arith)
            requires
                k == pow2(p.spreading_factor as nat) * 1_000_000,
        ;
        assert(q2 * pow2(p.spreading_factor as nat) * 1_000_000 == q2 * k) by (nonlinear_arith)
            requires
                k == pow2(p.spreading_factor as nat) * 1_000_000,
        ;
    }
}

/// A payload that needs more symbols takes strictly more airtime, as long as
/// one symbol group lasts a microsecond or more: the coding rate is not
/// zero and the bandwidth does not exceed `2^SF * 1_000_000 * CR` Hz.
pub proof fn lemma_airtime_payload_strict(p: LoRaParams, shorter: int, longer: int)
    requires
        p.spreading_factor_in_range(),
        0 <= shorter <= longer,
        p.payload_symbols(shorter) < p.payload_symbols(longer),
        0 < p.bandwidth_hz <= pow2(p.spreading_factor as nat) * 1_000_000 * p.coding_rate,
    ensures
        p.airtime_us(shorter) < p.airtime_us(longer),
{
    lemma_denominator(p);
    lemma_pow2_small(p.spreading_factor as nat);
    let d = p.symbol_denominator();
    let c1 = ceil_div_or_zero(p.symbol_numerator(shorter), d);
    let c2 = ceil_div_or_zero(p.symbol_numerator(longer), d);
    let cr = p.coding_rate as int;
    let k = pow2(p.spreading_factor as nat) * 1_000_000;
    let q1 = p.quarter_symbols(shorter);
    let q2 = p.quarter_symbols(longer);
    let bw = p.bandwidth_hz as int;
    assert(c1 < c2 && cr >= 1) by (nonlinear_arith)
        requires
            8 + c1 * cr < 8 + c2 * cr,
            cr >= 0,
            c1 >= 0,
            c2 >= 0,
    {
    }
    assert(q2 >= q1 + 4 * cr) by (nonlinear_arith)
        requires
            q1 == 4 * p.preamble_symbols + 17 + 4 * (8 + c1 * cr),
            q2 == 4 * p.preamble_symbols + 17 + 4 * (8 + c2 * cr),
            c1 + 1 <= c2,
            cr >= 1,
    ;
    // the gap of 4 CR quarter symbols is worth at least one microsecond
    assert(q2 * k >= q1 * k + 4 * bw) by (nonlinear_arith)
        requires
            q2 >= q1 + 4 * cr,
            k >= 0,
            bw <= k * cr,
    ;
    assert(q1 * k / (4 * bw) < q2 * k / (4 * bw)) by (nonlinear_arith)
        requires
            q2 * k >= q1 * k + 4 * bw,
            bw > 0,
    ;
    assert(q1 * pow2(p.spreading_factor as nat) * 1_000_000 == q1 * k) by (nonlinear_arith)
        requires
            k == pow2(p.spreading_factor as nat) * 1_000_000,
    ;
    assert(q2 * pow2(p.spreading_factor as nat) * 1_000_000 == q2 * k) by (nonlinear_arith)
        requires
            k == pow2(p.spreading_factor as nat) * 1_000_000,
    ;
}

/// The parameters `p` with another bandwidth.
pub open spec fn at_bandwidth(p: LoRaParams, bandwidth_hz: u32) -> LoRaParams {
    LoRaParams { bandwidth_hz, ..p }
}

/// The parameters `p` with another spreading factor.
pub open spec fn at_spreading_factor(p: LoRaParams, spreading_factor: u8) -> LoRaParams {
    LoRaParams { spreading_factor, ..p }
}

/// A wider bandwidth never takes more airtime.
pub proof fn lemma_airtime_bandwidth(p: LoRaParams, payload: int, narrow: u32, wide: u32)
    requires
        p.spreading_factor_in_range(),
        payload >= 0,
        0 < narrow <= wide,
    ensures
        at_bandwidth(p, wide).airtime_us(payload) <= at_bandwidth(p, narrow).airtime_us(payload),
        at_bandwidth(p, wide).quarter_symbols(payload) <= at_bandwidth(p, narrow).quarter_symbols(
            payload,
        ),
        at_bandwidth(p, wide).quarter_symbols(payload) >= 0,
{
    let a = at_bandwidth(p, narrow);
    let b = at_bandwidth(p, wide);
    lemma_denominator(a);
    lemma_denominator(b);
    lemma_pow2_small(p.spreading_factor as nat);
    let k = pow2(p.spreading_factor as nat) * 1_000_000;
    // what needs low data rate optimization at the wide bandwidth needs it at
    // the narrow one
    assert(b.ldro() ==> a.ldro());
    let n = a.symbol_numerator(payload);
    assert(n == b.symbol_numerator(payload));
    lemma_ceil_div_denominator(n, a.symbol_denominator(), b.symbol_denominator());
    let ca = ceil_div_or_zero(n, a.symbol_denominator());
    let cb = ceil_div_or_zero(n, b.symbol_denominator());
    lemma_ceil_div(n, b.symbol_denominator());
    assert(cb * p.coding_rate <= ca * p.coding_rate && cb * p.coding_rate >= 0) by (nonlinear_arith)
        requires
            0 <= cb <= ca,
            p.coding_rate >= 0,
    ;
    let qa = a.quarter_symbols(payload);
    let qb = b.quarter_symbols(payload);
    assert(qb * k / (4 * wide) <= qa * k / (4 * narrow)) by (nonlinear_arith)
        requires
            0 <= qb <= qa,
            k >= 0,
            0 < narrow <= wide,
    ;
    assert(qa * pow2(p.spreading_factor as nat) * 1_000_000 == qa * k) by (nonlinear_arith)
        requires
            k == pow2(p.spreading_factor as nat) * 1_000_000,
    ;
    assert(qb * pow2(p.spreading_factor as nat) * 1_000_000 == qb * k) by (nonlinear_arith)
        requires
            k == pow2(p.spreading_factor as nat) * 1_000_000,
    ;
}

/// At least twice the bandwidth takes strictly less airtime, unless the
/// airtime is below one microsecond already.
pub proof fn lemma_airtime_bandwidth_strict(p: LoRaParams, payload: int, narrow: u32, wide: u32)
    requires
        p.spreading_factor_in_range(),
        payload >= 0,
        0 < narrow,
        2 * narrow <= wide,
        at_bandwidth(p, narrow).airtime_us(payload) > 0,
    ensures
        at_bandwidth(p, wide).airtime_us(payload) < at_bandwidth(p, narrow).airtime_us(payload),
{
    let a = at_bandwidth(p, narrow);
    let b = at_bandwidth(p, wide);
    lemma_airtime_bandwidth(p, payload, narrow, wide);
    lemma_pow2_small(p.spreading_factor as nat);
    let k = pow2(p.spreading_factor as nat) * 1_000_000;
    let qa = a.quarter_symbols(payload);
    let qb = b.quarter_symbols(payload);
    assert(qa * pow2(p.spreading_factor as nat) * 1_000_000 == qa * k) by (nonlinear_arith)
        requires
            k == pow2(p.spreading_factor as nat) * 1_000_000,
    ;
    assert(qb * pow2(p.spreading_factor as nat) * 1_000_000 == qb * k) by (nonlinear_arith)
        requires
            k == pow2(p.spreading_factor as nat) * 1_000_000,
    ;
    let x = qa * k;
    let y = qb * k;
    assert(0 <= y <= x) by (nonlinear_arith)
        requires
            0 <= qb <= qa,
            k >= 0,
            x == qa * k,
            y == qb * k,
    ;
    assert(y / (4 * wide) < x / (4 * narrow)) by (nonlinear_arith)
        requires
            0 <= y <= x,
            0 < narrow,
            2 * narrow <= wide,
            x / (4 * narrow) > 0,
    ;
}

/// One step up in spreading factor takes strictly more airtime, for coding
/// rates up to 12 and bandwidths up to 32 MHz.
pub proof fn lemma_airtime_next_spreading_factor(p: LoRaParams, payload: int)
    requires
        7 <= p.spreading_factor < 12,
        payload >= 0,
        p.coding_rate <= 12,
        0 < p.bandwidth_hz <= 32_000_000,
    ensures
        p.airtime_us(payload) < at_spreading_factor(p, (p.spreading_factor + 1) as u8).airtime_us(
            payload,
        ),
{
    let a = p;
    let b = at_spreading_factor(p, (p.spreading_factor + 1) as u8);
    lemma_pow2_small(a.spreading_factor as nat);
    lemma_pow2_small(b.spreading_factor as nat);
    lemma_denominator(a);
    lemma_denominator(b);
    let ka = pow2(a.spreading_factor as nat) * 1_000_000;
    let kb = pow2(b.spreading_factor as nat) * 1_000_000;
    assert(kb == 2 * ka);
    assert(ka >= 128_000_000);
    assert(a.ldro() ==> b.ldro());
    let na = a.symbol_numerator(payload);
    let nb = b.symbol_numerator(payload);
    let da = a.symbol_denominator();
    let db = b.symbol_denominator();
    assert(nb == na - 4);
    assert(db <= da + 4);
    let ca = ceil_div_or_zero(na, da);
    let cb = ceil_div_or_zero(nb, db);
    lemma_ceil_div(na, da);
    lemma_ceil_div(nb, db);
    // the symbol groups shrink to no less than half, rounded down
    assert(ca <= 2 * cb + 1) by {
        if nb <= 0 {
            assert(ca <= 1) by (nonlinear_arith)
                requires
                    na <= 4,
                    da >= 20,
                    na > 0 ==> (ca - 1) * da < na,
                    na <= 0 ==> ca == 0,
            ;
        } else {
            assert(ca <= 2 * cb + 1) by (nonlinear_arith)
                requires
                    (ca - 1) * da < na,
                    cb * db >= na - 4,
                    db <= da + 4,
                    da >= 20,
                    cb >= 1,
            ;
        }
    }
    let cr = p.coding_rate as int;
    let qa = a.quarter_symbols(payload);
    let qb = b.quarter_symbols(payload);
    assert(2 * qb >= qa + 1) by (nonlinear_arith)
        requires
            qa == 4 * p.preamble_symbols + 17 + 4 * (8 + ca * cr),
            qb == 4 * p.preamble_symbols + 17 + 4 * (8 + cb * cr),
            ca <= 2 * cb + 1,
            0 <= cr <= 12,
            cb >= 0,
            p.preamble_symbols >= 0,
    ;
    let bw = p.bandwidth_hz as int;
    assert(qb * kb >= qa * ka + 4 * bw) by (nonlinear_arith)
        requires
            2 * qb >= qa + 1,
            kb == 2 * ka,
            ka >= 128_000_000,
            bw <= 32_000_000,
    ;
    assert(qa * ka / (4 * bw) < qb * kb / (4 * bw)) by (nonlinear_arith)
        requires
            qb * kb >= qa * ka + 4 * bw,
            bw > 0,
    ;
    assert(qa * pow2(a.spreading_factor as nat) * 1_000_000 == qa * ka) by (nonlinear_arith)
        requires
            ka == pow2(a.spreading_factor as nat) * 1_000_000,
    ;
    assert(qb * pow2(b.spreading_factor as nat) * 1_000_000 == qb * kb) by (nonlinear_arith)
        requires
            kb == pow2(b.spreading_factor as nat) * 1_000_000,
    ;
}

/// A higher spreading factor takes strictly more airtime, for coding rates
/// up to 12 and bandwidths up to 32 MHz.
pub proof fn lemma_airtime_spreading_factor(p: LoRaParams, payload: int, low: u8, high: u8)
    requires
        7 <= low < high <= 12,
        payload >= 0,
        p.coding_rate <= 12,
        0 < p.bandwidth_hz <= 32_000_000,
    ensures
        at_spreading_factor(p, low).airtime_us(payload) < at_spreading_factor(p, high).airtime_us(
            payload,
        ),
    decreases high - low,
{
    let below = (high - 1) as u8;
    lemma_airtime_next_spreading_factor(at_spreading_factor(p, below), payload);
    assert(at_spreading_factor(at_spreading_factor(p, below), high) == at_spreading_factor(p, high));
    if low < below {
        lemma_airtime_spreading_factor(p, payload, low, below);
    }
}

} // verus!
