//! Mapping raw point attributes to output channels.
//!
//! Reflectance is rescaled linearly from the operator's configured range
//! to the full 16-bit intensity channel. Temperature is mapped through a
//! two-stop linear gradient from cold blue to hot red, clamping outside
//! the configured range; no data maps to black. The asymmetry is
//! deliberate: the reflectance range is a hard contract supplied by the
//! operator, while the gradient has clamping endpoint semantics.

use vstd::prelude::*;
use crate::fixed::{floor_div_i128, lemma_div_below, lemma_div_at_least, lemma_mul_bound};
use crate::aggregate::AggregateResult;

verus! {

/// Largest magnitude accepted for a reflectance or temperature bound or
/// value, in fixed-point units.
pub const ATTR_LIMIT: i64 = 1099511627776;

/// An 8-bit display color.
#[derive(Clone, Copy, PartialEq, Eq, Structural, Debug)]
pub struct Rgb {
    pub red: u8,
    pub green: u8,
    pub blue: u8,
}

/// `n / d` rounded to the nearest integer, rounding ties up.
pub open spec fn round_div(n: int, d: int) -> int {
    (2 * n + d) / (2 * d)
}

/// The unclamped linear rescale of `v` from `[min, max]` to `[0, 65535]`,
/// rounded to the nearest integer.
pub open spec fn intensity_ratio(v: int, min: int, max: int) -> int {
    round_div(65535 * (v - min), max - min)
}

/// What the intensity mapping yields: the linear rescale, saturated at
/// the channel's ends for values outside the configured range.
pub open spec fn intensity_spec(v: int, min: int, max: int) -> u16 {
    let r = intensity_ratio(v, min, max);
    if r < 0 {
        0u16
    } else if r > 65535 {
        65535u16
    } else {
        r as u16
    }
}

/// Rescales a reflectance value from the configured range to the 16-bit
/// intensity channel: `round(65535 * (v - min) / (max - min))`.
///
/// A value at `min` maps to 0 and one at `max` to 65535; values outside
/// the range saturate at the nearest channel end. An empty or inverted
/// range is a configuration error callers reject before streaming begins.
pub fn reflectance_to_intensity(v: i64, min: i64, max: i64) -> (r: u16)
    requires
        min < max,
        -ATTR_LIMIT <= v <= ATTR_LIMIT,
        -ATTR_LIMIT <= min <= ATTR_LIMIT,
        -ATTR_LIMIT <= max <= ATTR_LIMIT,
    ensures
        r == intensity_spec(v as int, min as int, max as int),
{
    let num: i128 = 2 * 65535 * (v as i128 - min as i128) + (max as i128 - min as i128);
    let den: i128 = 2 * (max as i128 - min as i128);
    proof {
        lemma_mul_bound(
            (2 * 65535) as int,
            v as int - min as int,
            (2 * 65535) as int,
            2 * (ATTR_LIMIT as int),
        );
    }
    let q = floor_div_i128(num, den);
    proof {
        crate::fixed::lemma_div_bound(
            num as int,
            den as int,
            2 * 65535 * 2 * (ATTR_LIMIT as int) + 2 * (ATTR_LIMIT as int),
        );
    }
    if q < 0 {
        0
    } else if q > 65535 {
        65535
    } else {
        q as u16
    }
}

/// A reflectance exactly at the range's minimum maps to intensity 0, and
/// one exactly at its maximum to 65535.
pub proof fn lemma_intensity_endpoints(min: int, max: int)
    requires
        min < max,
    ensures
        intensity_spec(min, min, max) == 0,
        intensity_spec(max, min, max) == 65535,
{
    let d = max - min;
    assert(intensity_ratio(min, min, max) == 0) by {
        assert(65535 * (min - min) == 0) by (nonlinear_arith);
        lemma_div_at_least(d, 2 * d, 0);
        lemma_div_below(d, 2 * d, 1);
    }
    assert(intensity_ratio(max, min, max) == 65535) by {
        let n = 2 * (65535 * d) + d;
        assert(n >= 2 * d * 65535) by (nonlinear_arith)
            requires
                d > 0,
                n == 2 * (65535 * d) + d,
        ;
        assert(n < 2 * d * 65536) by (nonlinear_arith)
            requires
                d > 0,
                n == 2 * (65535 * d) + d,
        ;
        lemma_div_at_least(n, 2 * d, 65535);
        lemma_div_below(n, 2 * d, 65536);
    }
}

/// The red channel of the gradient: 0 at or below the cold end, 255 at or
/// above the hot end, linear in between.
pub open spec fn red_spec(t: int, tmin: int, tmax: int) -> int {
    if t <= tmin {
        0
    } else if t >= tmax {
        255
    } else {
        round_div(255 * (t - tmin), tmax - tmin)
    }
}

/// The blue channel of the gradient: 255 at or below the cold end, 0 at
/// or above the hot end, linear in between.
pub open spec fn blue_spec(t: int, tmin: int, tmax: int) -> int {
    if t <= tmin {
        255
    } else if t >= tmax {
        0
    } else {
        round_div(255 * (tmax - t), tmax - tmin)
    }
}

/// What the gradient yields for an aggregated temperature: black for no
/// data, and otherwise the blue-to-red ramp with clamping endpoints.
pub open spec fn color_spec(t: AggregateResult, tmin: int, tmax: int) -> Rgb {
    match t {
        AggregateResult::NoData => Rgb { red: 0u8, green: 0u8, blue: 0u8 },
        AggregateResult::Value(v) => Rgb {
            red: red_spec(v as int, tmin, tmax) as u8,
            green: 0u8,
            blue: blue_spec(v as int, tmin, tmax) as u8,
        },
    }
}

/// An interior gradient channel value lies within the 8-bit range.
proof fn lemma_channel_in_range(off: int, d: int)
    requires
        0 < off < d,
    ensures
        0 <= round_div(255 * off, d) <= 255,
{
    let n = 2 * (255 * off) + d;
    assert(n >= 0) by (nonlinear_arith)
        requires
            0 < off < d,
            n == 2 * (255 * off) + d,
    ;
    lemma_div_at_least(n, 2 * d, 0);
    assert(n < 2 * d * 256) by (nonlinear_arith)
        requires
            0 < off < d,
            n == 2 * (255 * off) + d,
    ;
    lemma_div_below(n, 2 * d, 256);
}

/// Maps an aggregated temperature to a display color through the
/// two-stop gradient: cold blue at the configured minimum, hot red at the
/// configured maximum, linear interpolation per channel in between, and
/// clamping to the endpoint colors outside the range. No data maps to
/// black.
pub fn temperature_to_color(t: &AggregateResult, tmin: i64, tmax: i64) -> (r: Rgb)
    requires
        tmin < tmax,
        -ATTR_LIMIT <= tmin <= ATTR_LIMIT,
        -ATTR_LIMIT <= tmax <= ATTR_LIMIT,
        t matches AggregateResult::Value(v) ==> -2 * ATTR_LIMIT <= *v <= 2 * ATTR_LIMIT,
    ensures
        r == color_spec(*t, tmin as int, tmax as int),
{
    match t {
        AggregateResult::NoData => Rgb { red: 0, green: 0, blue: 0 },
        AggregateResult::Value(v) => {
            let v = *v;
            if v <= tmin {
                Rgb { red: 0, green: 0, blue: 255 }
            } else if v >= tmax {
                Rgb { red: 255, green: 0, blue: 0 }
            } else {
                let d: i128 = tmax as i128 - tmin as i128;
                let nr: i128 = 2 * (255 * (v as i128 - tmin as i128)) + d;
                let nb: i128 = 2 * (255 * (tmax as i128 - v as i128)) + d;
                proof {
                    lemma_channel_in_range(v as int - tmin as int, d as int);
                    lemma_channel_in_range(tmax as int - v as int, d as int);
                }
                let red = floor_div_i128(nr, 2 * d);
                let blue = floor_div_i128(nb, 2 * d);
                Rgb { red: red as u8, green: 0, blue: blue as u8 }
            }
        },
    }
}

/// The gradient's endpoint and midpoint behavior: every temperature at or
/// below the cold end is exactly blue, every temperature at or above the
/// hot end is exactly red, and a temperature exactly halfway between the
/// stops takes the half-intensity purple `(128, 0, 128)`.
pub proof fn lemma_color_endpoints(t: i64, tmin: i64, tmax: i64)
    requires
        tmin < tmax,
    ensures
        t <= tmin ==> color_spec(AggregateResult::Value(t), tmin as int, tmax as int)
            == (Rgb { red: 0u8, green: 0u8, blue: 255u8 }),
        t >= tmax ==> color_spec(AggregateResult::Value(t), tmin as int, tmax as int)
            == (Rgb { red: 255u8, green: 0u8, blue: 0u8 }),
        2 * t == tmin + tmax ==> color_spec(AggregateResult::Value(t), tmin as int, tmax as int)
            == (Rgb { red: 128u8, green: 0u8, blue: 128u8 }),
{
    let t = t as int;
    let tmin = tmin as int;
    let tmax = tmax as int;
    if 2 * t == tmin + tmax {
        let d = tmax - tmin;
        assert(tmin < t < tmax);
        let n = 2 * (255 * (t - tmin)) + d;
        assert(n == 256 * d) by (nonlinear_arith)
            requires
                2 * t == tmin + tmax,
                d == tmax - tmin,
                n == 2 * (255 * (t - tmin)) + d,
        ;
        assert(n == (2 * d) * 128) by (nonlinear_arith)
            requires
                n == 256 * d,
        ;
        lemma_div_at_least(n, 2 * d, 128);
        lemma_div_below(n, 2 * d, 129);
        let nb = 2 * (255 * (tmax - t)) + d;
        assert(nb == n) by (nonlinear_arith)
            requires
                2 * t == tmin + tmax,
                d == tmax - tmin,
                n == 2 * (255 * (t - tmin)) + d,
                nb == 2 * (255 * (tmax - t)) + d,
        ;
    }
}

} // verus!
