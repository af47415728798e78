//! The noise calibration curve and its numeric inverse.
//!
//! The forward curve is the quintic smoothstep `t^3 * (t * (t * 6 - 15) + 10)`
//! on [0, 1], monotonically increasing with `curve(0) = 0` and `curve(1) = 1`.
//! Inverting it calibrates the land-ratio bias: a requested land fraction is
//! pulled back through the curve by bisection, and the bias is the distance
//! of that preimage from one half.
//!
//! In fixed point the curve maps [0, SCALE] to [0, SCALE]; all intermediate
//! products are exact integers and the one division (by `SCALE^4`) rounds
//! down, so the integer curve is still monotone and moves by at most 2
//! fixed-point steps between adjacent inputs.

use crate::fixed::HALF;
use crate::fixed::SCALE;
use crate::fixed::lemma_div_bound;
use vstd::arithmetic::div_mod::lemma_div_is_ordered;
use vstd::arithmetic::div_mod::lemma_fundamental_div_mod;
use vstd::arithmetic::div_mod::lemma_mod_division_less_than_divisor;
use vstd::prelude::*;

verus! {

/// `SCALE^4`, the divisor that renormalizes the quintic's numerator.
pub open spec fn scale4() -> int {
    (SCALE as int) * (SCALE as int) * (SCALE as int) * (SCALE as int)
}

/// Numerator of the fixed-point smoothstep: `6 t^5 - 15 S t^4 + 10 S^2 t^3`.
pub open spec fn curve_num(t: int) -> int {
    6 * t * t * t * t * t - 15 * (SCALE as int) * t * t * t * t + 10 * (SCALE as int) * (
    SCALE as int) * t * t * t
}

/// The fixed-point smoothstep curve on [0, SCALE].
pub open spec fn curve_spec(t: int) -> int {
    curve_num(t) / scale4()
}

/// The quintic numerator factors as `t^3` times a positive quadratic.
proof fn lemma_quintic_nonneg(t: int, s: int)
    by (nonlinear_arith)
    requires
        0 <= t <= s,
    ensures
        6 * t * t * t * t * t - 15 * s * t * t * t * t + 10 * s * s * t * t * t >= 0,
{
    let q: int = 6 * t * t - 15 * s * t + 10 * s * s;
    assert(24 * q == (12 * t - 15 * s) * (12 * t - 15 * s) + 15 * s * s);
}

/// `s^5` minus the quintic numerator factors as `(s - t)^3` times a
/// positive quadratic.
#[verifier::rlimit(100)]
proof fn lemma_quintic_upper(t: int, s: int)
    by (nonlinear_arith)
    requires
        0 <= t <= s,
        s == 1000000,
    ensures
        6 * t * t * t * t * t - 15 * s * t * t * t * t + 10 * s * s * t * t * t <= s * (s * s * s
            * s),
{
    assert(s * (s * s * s * s) - (6 * t * t * t * t * t - 15 * s * t * t * t * t + 10 * s * s * t
        * t * t) == (s - t) * (s - t) * (s - t) * (s * s + 3 * s * t + 6 * t * t));
}

/// The quintic numerator does not fall between adjacent inputs: the real
/// curve's slope `30 t^2 (s - t)^2` is nonnegative everywhere.
proof fn lemma_quintic_step_nonneg(t: int, s: int)
    by (nonlinear_arith)
    requires
        0 <= t < s,
        s == 1000000,
    ensures
        6 * t * t * t * t * t - 15 * s * t * t * t * t + 10 * s * s * t * t * t <= 6 * (t + 1) * (
        t + 1) * (t + 1) * (t + 1) * (t + 1) - 15 * s * (t + 1) * (t + 1) * (t + 1) * (t + 1) + 10
            * s * s * (t + 1) * (t + 1) * (t + 1),
{
}

/// The quintic numerator is monotone on [0, s]: induction over unit steps.
proof fn lemma_quintic_mono(a: int, b: int, s: int)
    requires
        0 <= a <= b <= s,
        s == 1000000,
    ensures
        6 * a * a * a * a * a - 15 * s * a * a * a * a + 10 * s * s * a * a * a <= 6 * b * b * b
            * b * b - 15 * s * b * b * b * b + 10 * s * s * b * b * b,
    decreases b - a,
{
    if a < b {
        lemma_quintic_mono(a, b - 1, s);
        lemma_quintic_step_nonneg(b - 1, s);
    }
}

/// Between adjacent inputs the quintic numerator moves by less than
/// `2 s^4`: the real curve's slope never exceeds 15/8.
proof fn lemma_quintic_step(t: int, s: int)
    by (nonlinear_arith)
    requires
        0 <= t < s,
        s == 1000000,
    ensures
        (6 * (t + 1) * (t + 1) * (t + 1) * (t + 1) * (t + 1) - 15 * s * (t + 1) * (t + 1) * (t
            + 1) * (t + 1) + 10 * s * s * (t + 1) * (t + 1) * (t + 1)) - (6 * t * t * t * t * t
            - 15 * s * t * t * t * t + 10 * s * s * t * t * t) < 2 * (s * (s * (s * s))),
{
}

/// The curve is monotone on [0, SCALE].
pub proof fn lemma_curve_mono(a: int, b: int)
    requires
        0 <= a <= b <= SCALE,
    ensures
        curve_spec(a) <= curve_spec(b),
{
    lemma_quintic_mono(a, b, SCALE as int);
    lemma_div_is_ordered(curve_num(a), curve_num(b), scale4());
}

/// The curve moves by at most 2 fixed-point steps between adjacent inputs.
pub proof fn lemma_curve_step(t: int)
    requires
        0 <= t < SCALE,
    ensures
        curve_spec(t + 1) <= curve_spec(t) + 2,
{
    let s4: int = scale4();
    let n1: int = curve_num(t);
    let n2: int = curve_num(t + 1);
    lemma_quintic_step(t, SCALE as int);
    assert(n2 - n1 < 2 * s4);
    lemma_fundamental_div_mod(n1, s4);
    lemma_fundamental_div_mod(n2, s4);
    lemma_mod_division_less_than_divisor(n1, s4);
    lemma_mod_division_less_than_divisor(n2, s4);
    let q1: int = n1 / s4;
    let q2: int = n2 / s4;
    let r1: int = n1 % s4;
    let r2: int = n2 % s4;
    assert(s4 * (q2 - q1) == (n2 - n1) + r1 - r2) by (nonlinear_arith)
        requires
            n1 == s4 * q1 + r1,
            n2 == s4 * q2 + r2,
    ;
    assert(q2 - q1 < 3) by (nonlinear_arith)
        requires
            s4 * (q2 - q1) < 3 * s4,
            s4 > 0,
    ;
}

/// Evaluate the fixed-point smoothstep curve.
pub fn curve(t: i64) -> (r: i64)
    requires
        0 <= t <= SCALE,
    ensures
        r == curve_spec(t as int),
        0 <= r <= SCALE,
{
    let x: i128 = t as i128;
    proof {
        assert(0 <= x * x <= 1000000000000int) by (nonlinear_arith)
            requires
                0 <= x <= 1000000,
        ;
    }
    let x2: i128 = x * x;
    proof {
        assert(0 <= x2 * x <= 1000000000000000000int) by (nonlinear_arith)
            requires
                0 <= x2 <= 1000000000000int,
                0 <= x <= 1000000,
        ;
    }
    let x3: i128 = x2 * x;
    proof {
        assert(0 <= x3 * x <= 1000000000000000000000000int) by (nonlinear_arith)
            requires
                0 <= x3 <= 1000000000000000000int,
                0 <= x <= 1000000,
        ;
    }
    let x4: i128 = x3 * x;
    proof {
        assert(0 <= x4 * x <= 1000000000000000000000000000000int) by (nonlinear_arith)
            requires
                0 <= x4 <= 1000000000000000000000000int,
                0 <= x <= 1000000,
        ;
    }
    let x5: i128 = x4 * x;
    proof {
        assert(x3 == x * x * x && x4 == x * x * x * x && x5 == x * x * x * x * x)
            by (nonlinear_arith)
            requires
                x2 == x * x,
                x3 == x2 * x,
                x4 == x3 * x,
                x5 == x4 * x,
        ;
    }
    let num: i128 = 6 * x5 - 15_000_000 * x4 + 10_000_000_000_000 * x3;
    proof {
        let tt: int = t as int;
        assert(num == 6 * tt * tt * tt * tt * tt - 15 * 1000000 * tt * tt * tt * tt + 10 * 1000000
            * 1000000 * tt * tt * tt) by (nonlinear_arith)
            requires
                x == tt,
                x2 == x * x,
                x3 == x2 * x,
                x4 == x3 * x,
                x5 == x4 * x,
                num == 6 * x5 - 15_000_000 * x4 + 10_000_000_000_000 * x3,
        ;
        assert(num == curve_num(t as int));
        lemma_quintic_nonneg(t as int, SCALE as int);
        lemma_quintic_upper(t as int, SCALE as int);
    }
    let s4: i128 = 1_000_000_000_000_000_000_000_000;
    proof {
        assert(s4 == scale4());
        assert(num >= 0 && num <= (SCALE as int) * scale4());
    }
    let q: i128 = num / s4;
    proof {
        lemma_div_bound(num as int, s4 as int, SCALE as int);
        assert(q == curve_spec(t as int));
    }
    q as i64
}

/// `t` is where the bisection brackets the preimage of `y`: the curve is
/// still below `y` at `t` (unless `t` is the left end) and at least `y`
/// one step later (unless that step is the right end).
pub open spec fn is_inverse(t: int, y: int) -> bool {
    &&& 0 <= t < SCALE
    &&& t == 0 || curve_spec(t) < y
    &&& t + 1 == SCALE || curve_spec(t + 1) >= y
}

/// Invert the smoothstep curve by bisection.
///
/// Narrows [0, SCALE] until one fixed-point step remains, moving the low
/// end up while the curve stays below `y`. By monotonicity the result is
/// the unique preimage of `y` up to curve plateaus.
pub fn inverse_curve(y: i64) -> (r: i64)
    requires
        0 <= y <= SCALE,
    ensures
        is_inverse(r as int, y as int),
{
    let mut low: i64 = 0;
    let mut high: i64 = SCALE;
    while high - low > 1
        invariant
            0 <= low < high <= SCALE,
            0 <= y <= SCALE,
            low == 0 || curve_spec(low as int) < y,
            high == SCALE || curve_spec(high as int) >= y,
        decreases high - low,
    {
        let mid: i64 = low + (high - low) / 2;
        if curve(mid) < y {
            low = mid;
        } else {
            high = mid;
        }
    }
    low
}

/// The land-ratio bias: the signed distance of the requested land
/// fraction's curve preimage from one half. A higher requested land ratio
/// gives a smaller (more negative) bias, shifting more sites into land.
pub fn land_bias(land_ratio: i64) -> (r: i64)
    requires
        0 <= land_ratio <= SCALE,
    ensures
        is_inverse(HALF - r, land_ratio as int),
        -HALF < r <= HALF,
{
    let t: i64 = inverse_curve(land_ratio);
    HALF - t
}

/// Round trip of the bisection inversion: the curve carries the bracketed
/// preimage of `y` back to within 2 fixed-point steps (2 millionths) of `y`.
pub proof fn lemma_inverse_round_trip(y: int, t: int)
    requires
        0 <= y <= SCALE,
        is_inverse(t, y),
    ensures
        y - 2 <= curve_spec(t) <= y,
{
    // Upper bound: the curve sits below y at t, or t is 0 where the curve
    // is 0 <= y.
    if t == 0 {
        assert(curve_num(0) == 0);
        lemma_div_bound(0, scale4(), 0);
    }
    // Lower bound: y is at most the curve one step later, which exceeds
    // the curve at t by at most 2.
    if t + 1 == SCALE {
        assert(curve_num(SCALE as int) == (SCALE as int) * scale4()) by (nonlinear_arith);
        assert(curve_spec(SCALE as int) == SCALE) by {
            crate::fixed::lemma_tdiv_exact(SCALE as int, scale4());
        }
    }
    lemma_curve_step(t);
}

} // verus!
