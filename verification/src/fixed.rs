//! Fixed-point scalars.
//!
//! A scalar is an `i64` counting millionths: the real value 1.0 is `SCALE`.
//! Division of scalars truncates toward zero, like Rust's `/` on machine
//! integers; `tdiv` is the specification-level name for that operation
//! (Verus's own `/` on `int` is Euclidean division, which differs on
//! negative numerators).

use vstd::prelude::*;

verus! {

/// The fixed-point unit: this many `i64` steps make the real value 1.0.
pub const SCALE: i64 = 1_000_000;

/// Half of [`SCALE`]: the real value 0.5.
pub const HALF: i64 = 500_000;

/// Truncating division (toward zero), the semantics of `/` on `i64`.
pub open spec fn tdiv(a: int, b: int) -> int
    recommends
        b > 0,
{
    if a >= 0 {
        a / b
    } else {
        -((-a) / b)
    }
}

/// Absolute value of a mathematical integer.
pub open spec fn abs_int(a: int) -> int {
    if a >= 0 {
        a
    } else {
        -a
    }
}

/// Truncating division of fixed-point scalars, proved to match `tdiv`.
pub fn div_trunc(a: i64, b: i64) -> (r: i64)
    requires
        b > 0,
        a > i64::MIN,
    ensures
        r == tdiv(a as int, b as int),
{
    if a >= 0 {
        a / b
    } else {
        -((-a) / b)
    }
}

/// Quotients of nonnegative numerators are bounded by any bound on the
/// numerator expressed as a multiple of the divisor.
pub proof fn lemma_div_bound(a: int, b: int, c: int)
    by (nonlinear_arith)
    requires
        b > 0,
        0 <= a,
        a <= c * b,
    ensures
        0 <= a / b <= c,
{
}

/// Truncating division shrinks magnitudes: a bound on the numerator as a
/// multiple of the divisor bounds the quotient on both sides.
pub proof fn lemma_tdiv_bound(a: int, b: int, c: int)
    requires
        b > 0,
        0 <= c,
        -(c * b) <= a <= c * b,
    ensures
        -c <= tdiv(a, b) <= c,
{
    if a >= 0 {
        lemma_div_bound(a, b, c);
    } else {
        lemma_div_bound(-a, b, c);
    }
}

/// Dividing an exact multiple is exact, also under truncation.
pub proof fn lemma_tdiv_exact(a: int, b: int)
    by (nonlinear_arith)
    requires
        b > 0,
    ensures
        tdiv(a * b, b) == a,
{
}

} // verus!
