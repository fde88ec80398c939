use crate::value_map::{map_spec, pwm_map};
use vstd::arithmetic::div_mod::{lemma_fundamental_div_mod, lemma_fundamental_div_mod_converse, lemma_mod_pos_bound};
use vstd::prelude::*;

verus! {

/// A color as three 8-bit channel intensities.
#[derive(Clone, Copy, Debug, PartialEq, Eq, Structural)]
pub struct Rgb {
    pub r: u8,
    pub g: u8,
    pub b: u8,
}

impl Rgb {
    pub fn new(r: u8, g: u8, b: u8) -> (c: Rgb)
        ensures
            c.r == r,
            c.g == g,
            c.b == b,
    {
        Rgb { r, g, b }
    }
}

/// One full saturation or value: fractions are carried in 255ths.
pub const FULL: u8 = 255;

/// `n / d` rounded to the nearest integer, halves rounded up.
pub open spec fn div_round(n: int, d: int) -> int {
    (2 * n + d) / (2 * d)
}

/// The color in hue sector `sector` (one sixth of a turn, `span` units wide), `f` units into
/// it, at saturation `s` and value `v` (both in 255ths). Each channel moves linearly across
/// the sector.
pub open spec fn sector_rgb(sector: int, f: int, span: int, s: int, v: int) -> (int, int, int) {
    let p = div_round(v * (255 - s), 255);
    let q = div_round(v * (255 * span - s * f), 255 * span);
    let t = div_round(v * (255 * span - s * (span - f)), 255 * span);
    if sector == 0 {
        (v, t, p)
    } else if sector == 1 {
        (q, v, p)
    } else if sector == 2 {
        (p, v, t)
    } else if sector == 3 {
        (p, q, v)
    } else if sector == 4 {
        (t, p, v)
    } else {
        (v, p, q)
    }
}

/// Hue-saturation-value to red-green-blue; the hue is in degrees, taken modulo 360.
pub open spec fn hsv_spec(hue: int, s: int, v: int) -> (int, int, int) {
    sector_rgb((hue % 360) / 60, (hue % 360) % 60, 60, s, v)
}

/// Hue-saturation-value to red-green-blue, the hue being `pos / cycle` of a turn.
pub open spec fn hsv_turn_spec(pos: int, cycle: int, s: int, v: int) -> (int, int, int) {
    sector_rgb((6 * pos) / cycle, (6 * pos) % cycle, cycle, s, v)
}

pub open spec fn rgb_tuple(c: Rgb) -> (int, int, int) {
    (c.r as int, c.g as int, c.b as int)
}

/// `div_round(v * d, d)` gives back `v`.
proof fn lemma_div_round_exact(v: int, d: int)
    requires
        0 <= v,
        0 < d,
    ensures
        div_round(v * d, d) == v,
{
    assert(2 * (v * d) + d == v * (2 * d) + d) by (nonlinear_arith);
    lemma_fundamental_div_mod_converse(2 * (v * d) + d, 2 * d, v, d);
}

/// Scaling numerator and denominator together leaves the rounded quotient unchanged.
proof fn lemma_div_round_scaled(n: int, d: int, m: int)
    requires
        0 <= n,
        0 < d,
        0 < m,
    ensures
        div_round(m * n, m * d) == div_round(n, d),
{
    let x = 2 * n + d;
    lemma_fundamental_div_mod(x, 2 * d);
    lemma_mod_pos_bound(x, 2 * d);
    let q = x / (2 * d);
    let r = x % (2 * d);
    assert(2 * (m * n) + m * d == q * (2 * (m * d)) + m * r && 0 <= m * r < 2 * (m * d))
        by (nonlinear_arith)
        requires
            x == 2 * n + d,
            x == 2 * d * q + r,
            0 <= r < 2 * d,
            0 < m,
    ;
    lemma_fundamental_div_mod_converse(2 * (m * n) + m * d, 2 * (m * d), q, m * r);
}

/// The conversion has no jumps between sectors: the end of each sector is the start of the
/// next, and the end of the last is the start of the first.
pub proof fn lemma_hsv_continuous(sector: int, span: int, s: int, v: int)
    requires
        0 <= sector < 6,
        0 < span,
        0 <= s <= 255,
        0 <= v <= 255,
    ensures
        sector_rgb(sector, span, span, s, v) == sector_rgb((sector + 1) % 6, 0, span, s, v),
{
    assert(v * (255 * span - s * span) == span * (v * (255 - s)) && v * (255 * span - s * 0)
        == span * (v * 255) && 255 * span == span * 255 && v * (255 - s) >= 0)
        by (nonlinear_arith)
        requires
            0 <= s <= 255,
            0 <= v,
    ;
    lemma_div_round_scaled(v * (255 - s), 255, span);
    lemma_div_round_scaled(v * 255, 255, span);
    lemma_div_round_exact(v, 255);
}

/// The largest sector width the conversions take.
pub const MAX_SPAN: u64 = 0xffff_ffff;

/// `n / d`, rounded to the nearest integer; at most `255` while `n <= 255 * d`.
fn round_div(n: u64, d: u64) -> (r: u64)
    requires
        0 < d <= 255 * MAX_SPAN,
        n <= 255 * d,
    ensures
        r == div_round(n as int, d as int),
        r <= 255,
{
    let m: u64 = 2 * d;
    let r = (2 * n + d) / m;
    proof {
        let x = 2 * n + d;
        lemma_fundamental_div_mod(x as int, m as int);
        lemma_mod_pos_bound(x as int, m as int);
        let q = x as int / m as int;
        assert(q <= 255) by (nonlinear_arith)
            requires
                x == m * q + x as int % m as int,
                0 <= x as int % m as int,
                m == 2 * d,
                x == 2 * n + d,
                n <= 255 * d,
                d > 0,
        ;
    }
    r
}

/// The color `f` units into hue sector `sector` of width `span`.
fn sector_color(sector: u64, f: u64, span: u64, sat: u8, val: u8) -> (c: Rgb)
    requires
        sector < 6,
        f < span,
        span <= MAX_SPAN,
    ensures
        rgb_tuple(c) == sector_rgb(sector as int, f as int, span as int, sat as int, val as int),
        sat == 0 ==> c.r == val && c.g == val && c.b == val,
        val == 0 ==> c.r == 0 && c.g == 0 && c.b == 0,
{
    let s: u64 = sat as u64;
    let v: u64 = val as u64;
    let d: u64 = 255 * span;
    proof {
        assert(v * (255 - s) <= 255 * 255) by (nonlinear_arith)
            requires
                v <= 255,
                s <= 255,
        ;
        assert(s * f <= d && s * (span - f) <= d && v * (d - s * f) <= 255 * d && v * (d - s * (
        span - f)) <= 255 * d) by (nonlinear_arith)
            requires
                v <= 255,
                s <= 255,
                f < span,
                d == 255 * span,
        ;
    }
    let p = round_div(v * (255 - s), 255) as u8;
    let q = round_div(v * (d - s * f), d) as u8;
    let t = round_div(v * (d - s * (span - f)), d) as u8;
    proof {
        if s == 0 {
            lemma_div_round_exact(v as int, 255);
            lemma_div_round_exact(v as int, d as int);
            assert(v * (255 - s) == v * 255);
            assert(v * (d - s * f) == v * d && v * (d - s * (span - f)) == v * d)
                by (nonlinear_arith)
                requires
                    s == 0,
            ;
        }
        if v == 0 {
            lemma_div_round_exact(0, 255);
            lemma_div_round_exact(0, d as int);
            assert(v * (255 - s) == 0 * 255);
            assert(v * (d - s * f) == 0 * d);
            assert(v * (d - s * (span - f)) == 0 * d);
        }
    }
    if sector == 0 {
        Rgb { r: val, g: t, b: p }
    } else if sector == 1 {
        Rgb { r: q, g: val, b: p }
    } else if sector == 2 {
        Rgb { r: p, g: val, b: t }
    } else if sector == 3 {
        Rgb { r: p, g: q, b: val }
    } else if sector == 4 {
        Rgb { r: t, g: p, b: val }
    } else {
        Rgb { r: val, g: p, b: q }
    }
}

/// Converts hue (degrees, taken modulo 360), saturation and value (both in 255ths, `FULL`
/// being one) to a color. Zero saturation gives a gray of the value; zero value gives black.
pub fn from_hsv(hue: u16, sat: u8, val: u8) -> (c: Rgb)
    ensures
        rgb_tuple(c) == hsv_spec(hue as int, sat as int, val as int),
        sat == 0 ==> c.r == val && c.g == val && c.b == val,
        val == 0 ==> c.r == 0 && c.g == 0 && c.b == 0,
{
    let h: u64 = (hue % 360) as u64;
    sector_color(h / 60, h % 60, 60, sat, val)
}

/// Converts a hue of `pos / cycle` of a turn, with saturation and value in 255ths, to a
/// color, without rounding the hue to whole degrees first.
pub fn from_hsv_turn(pos: u32, cycle: u32, sat: u8, val: u8) -> (c: Rgb)
    requires
        pos < cycle,
    ensures
        rgb_tuple(c) == hsv_turn_spec(pos as int, cycle as int, sat as int, val as int),
        sat == 0 ==> c.r == val && c.g == val && c.b == val,
        val == 0 ==> c.r == 0 && c.g == 0 && c.b == 0,
{
    let x: u64 = 6 * pos as u64;
    let n: u64 = cycle as u64;
    proof {
        if x / n >= 6 {
            lemma_fundamental_div_mod(x as int, n as int);
            lemma_mod_pos_bound(x as int, n as int);
            assert(false) by (nonlinear_arith)
                requires
                    x == n * (x as int / n as int) + x as int % n as int,
                    x as int / n as int >= 6,
                    x as int % n as int >= 0,
                    x == 6 * pos,
                    pos < n,
            ;
        }
        lemma_mod_pos_bound(x as int, n as int);
    }
    sector_color(x / n, x % n, n, sat, val)
}

/// A channel scaled by `factor` 255ths, rounded to the nearest integer.
pub open spec fn scale_channel_spec(ch: int, factor: int) -> int {
    div_round(ch * factor, 255)
}

fn scale_channel(ch: u8, factor: u8) -> (r: u8)
    ensures
        r == scale_channel_spec(ch as int, factor as int),
        factor == FULL ==> r == ch,
{
    let c: u64 = ch as u64;
    let f: u64 = factor as u64;
    proof {
        assert(c * f <= 255 * 255) by (nonlinear_arith)
            requires
                c <= 255,
                f <= 255,
        ;
        if f == 255 {
            lemma_div_round_exact(c as int, 255);
        }
    }
    round_div(c * f, 255) as u8
}

/// Scales every channel by `factor` 255ths (`FULL` being one), rounding to the nearest
/// channel value. At `FULL` the color is returned unchanged.
pub fn scale_brightness(c: Rgb, factor: u8) -> (r: Rgb)
    ensures
        r.r == scale_channel_spec(c.r as int, factor as int),
        r.g == scale_channel_spec(c.g as int, factor as int),
        r.b == scale_channel_spec(c.b as int, factor as int),
        factor == FULL ==> r == c,
{
    Rgb { r: scale_channel(c.r, factor), g: scale_channel(c.g, factor), b: scale_channel(c.b, factor) }
}

/// The duty of one channel driven over `[0, max_duty]`.
pub open spec fn channel_duty_spec(ch: int, max_duty: int) -> int {
    map_spec(ch, 0, 255, 0, max_duty)
}

/// The duty values of the red, green and blue channels of `c` on outputs whose duty range is
/// `[0, max_duty]`.
pub fn rgb_duties(c: Rgb, max_duty: u16) -> (d: (u16, u16, u16))
    ensures
        d.0 == channel_duty_spec(c.r as int, max_duty as int),
        d.1 == channel_duty_spec(c.g as int, max_duty as int),
        d.2 == channel_duty_spec(c.b as int, max_duty as int),
{
    (
        pwm_map(c.r as u16, 0..255, 0..max_duty),
        pwm_map(c.g as u16, 0..255, 0..max_duty),
        pwm_map(c.b as u16, 0..255, 0..max_duty),
    )
}

/// The two duties of a packed two-channel color: its high byte drives the first channel and
/// its low byte the second, each mapped over the full 16-bit duty range.
pub fn color_duties(color: u16) -> (d: (u16, u16))
    ensures
        d.0 == map_spec(color as int / 256, 0, 255, 0, 65535),
        d.1 == map_spec(color as int % 256, 0, 255, 0, 65535),
{
    let red: u16 = color >> 8;
    let green: u16 = color & 0x00ff;
    assert(red == color / 256 && green == color % 256) by (bit_vector)
        requires
            red == color >> 8,
            green == color & 0x00ff,
    ;
    (pwm_map(red, 0..255, 0..65535), pwm_map(green, 0..255, 0..65535))
}

} // verus!
