use core::ops::Range;
use vstd::arithmetic::div_mod::{lemma_div_by_multiple, lemma_div_is_ordered, lemma_mod_pos_bound};
use vstd::arithmetic::mul::lemma_mul_inequality;
use vstd::prelude::*;

verus! {

/// The value `v` held inside `[lo, hi]`.
pub open spec fn clamp_spec(v: int, lo: int, hi: int) -> int {
    if v < lo {
        lo
    } else if v > hi {
        hi
    } else {
        v
    }
}

/// Linear map of `v` (clamped to the input range) from `[in_lo, in_hi]` onto `[out_lo, out_hi]`,
/// rounding toward `out_lo`.
pub open spec fn map_spec(v: int, in_lo: int, in_hi: int, out_lo: int, out_hi: int) -> int {
    (clamp_spec(v, in_lo, in_hi) - in_lo) * (out_hi - out_lo) / (in_hi - in_lo) + out_lo
}

/// `a * k / d` grows with `a` and never passes `k` while `a <= d`.
proof fn lemma_scaled_fraction(a1: int, a2: int, d: int, k: int)
    requires
        0 <= a1 <= a2 <= d,
        0 < d,
        0 <= k,
    ensures
        0 <= a1 * k / d <= a2 * k / d <= k,
{
    lemma_mul_inequality(a1, a2, k);
    lemma_mul_inequality(a2, d, k);
    lemma_mul_inequality(0, a1, k);
    lemma_div_is_ordered(0, a1 * k, d);
    lemma_div_is_ordered(a1 * k, a2 * k, d);
    lemma_div_is_ordered(a2 * k, d * k, d);
    assert(d * k == k * d) by (nonlinear_arith);
    lemma_div_by_multiple(k, d);
}

/// Every mapped value lies in the output range.
pub proof fn lemma_map_in_range(v: int, in_lo: int, in_hi: int, out_lo: int, out_hi: int)
    requires
        in_lo < in_hi,
        out_lo <= out_hi,
    ensures
        out_lo <= map_spec(v, in_lo, in_hi, out_lo, out_hi) <= out_hi,
{
    let a = clamp_spec(v, in_lo, in_hi) - in_lo;
    lemma_scaled_fraction(a, a, in_hi - in_lo, out_hi - out_lo);
}

/// The mapper sends the start of the input range to the start of the output range, the end
/// to the end, and never decreases between them.
pub proof fn lemma_map_linear(v1: int, v2: int, in_lo: int, in_hi: int, out_lo: int, out_hi: int)
    requires
        in_lo < in_hi,
        out_lo <= out_hi,
        v1 <= v2,
    ensures
        map_spec(in_lo, in_lo, in_hi, out_lo, out_hi) == out_lo,
        map_spec(in_hi, in_lo, in_hi, out_lo, out_hi) == out_hi,
        map_spec(v1, in_lo, in_hi, out_lo, out_hi) <= map_spec(v2, in_lo, in_hi, out_lo, out_hi),
{
    let d = in_hi - in_lo;
    let k = out_hi - out_lo;
    assert(0 * k == 0) by (nonlinear_arith);
    lemma_div_by_multiple(k, d);
    assert(d * k == k * d) by (nonlinear_arith);
    lemma_scaled_fraction(
        clamp_spec(v1, in_lo, in_hi) - in_lo,
        clamp_spec(v2, in_lo, in_hi) - in_lo,
        d,
        k,
    );
}

/// Maps `v` from `in_range` onto `out_range`; a `v` outside the input range is clamped to it
/// first, so the result always lies in the output range.
pub fn pwm_map(v: u16, in_range: Range<u16>, out_range: Range<u16>) -> (r: u16)
    requires
        in_range.start < in_range.end,
        out_range.start <= out_range.end,
    ensures
        r == map_spec(
            v as int,
            in_range.start as int,
            in_range.end as int,
            out_range.start as int,
            out_range.end as int,
        ),
{
    let lo = in_range.start;
    let hi = in_range.end;
    let c: u16 = if v < lo {
        lo
    } else if v > hi {
        hi
    } else {
        v
    };
    let a: u32 = (c - lo) as u32;
    let k: u32 = (out_range.end - out_range.start) as u32;
    let d: u32 = (hi - lo) as u32;
    proof {
        lemma_scaled_fraction(a as int, a as int, d as int, k as int);
        assert(a * k <= 65535 * 65535) by (nonlinear_arith)
            requires
                a <= 65535,
                k <= 65535,
        ;
    }
    let q: u32 = a * k / d;
    q as u16 + out_range.start
}

/// The duty at step `k` of a ramp that climbs from `0` to `peak - 1` one step at a time and
/// then falls back to `0`, repeating every `2 * peak` steps.
pub open spec fn ramp_spec(k: int, peak: int) -> int {
    let s = k % (2 * peak);
    if s < peak {
        s
    } else {
        2 * peak - 1 - s
    }
}

/// The duty at step `k` of the up-and-down ramp of height `peak`; always below `peak`.
pub fn ramp_duty(k: u32, peak: u16) -> (d: u16)
    requires
        0 < peak,
    ensures
        d == ramp_spec(k as int, peak as int),
        d < peak,
{
    let period: u32 = 2 * peak as u32;
    let s: u32 = k % period;
    proof {
        lemma_mod_pos_bound(k as int, period as int);
    }
    if s < peak as u32 {
        s as u16
    } else {
        (period - 1 - s) as u16
    }
}

} // verus!
