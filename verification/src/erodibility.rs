//! Per-site erodibility.
//!
//! A five-octave noise sample `n` is transformed as
//! `|1 - 2 n| ^ power * 0.5 + 0.1`, where `power` is the configurable
//! erodibility-distribution exponent: a higher power concentrates mass
//! toward the lower end of the range, making sharp, erosion-resistant
//! terrain more common. For noise in [0, 1] the result lies in [0.1, 0.6];
//! the power is applied by repeated fixed-point multiplication, rounding
//! down at each step.

use crate::fixed::SCALE;
use crate::fixed::abs_int;
use crate::fixed::lemma_div_bound;
use crate::octave::octaved_noise;
use crate::octave::octaved_noise_spec;
use vstd::prelude::*;

verus! {

/// Fixed-point power by repeated multiplication, rounding down at each
/// step; the exponent must be at least 1.
pub open spec fn pow_fixed(base: int, power: nat) -> int
    decreases power,
{
    if power <= 1 {
        base
    } else {
        pow_fixed(base, (power - 1) as nat) * base / (SCALE as int)
    }
}

/// Powers of three, bounding the growth of `pow_fixed` on bases up to 3.
pub open spec fn pow3(k: nat) -> int
    decreases k,
{
    if k == 0 {
        1
    } else {
        3 * pow3((k - 1) as nat)
    }
}

/// The erodibility transform: `|1 - 2 n| ^ power * 0.5 + 0.1` of the
/// combined noise value `n`.
pub open spec fn erodibility_spec(samples: Seq<i64>, power: nat) -> int {
    pow_fixed(abs_int((SCALE as int) - 2 * octaved_noise_spec(samples, 700_000)), power) / 2
        + 100_000
}

proof fn lemma_pow3_mono(j: nat, k: nat)
    requires
        j <= k,
    ensures
        1 <= pow3(j) <= pow3(k),
    decreases k,
{
    if k > 0 {
        if j == k {
            lemma_pow3_mono((k - 1) as nat, (k - 1) as nat);
        } else {
            lemma_pow3_mono(j, (k - 1) as nat);
        }
    }
}

/// `pow_fixed` of a base in [0, 3] (fixed point: [0, 3 SCALE]) stays below
/// `3^power * SCALE`.
proof fn lemma_pow_fixed_growth(base: int, power: nat)
    requires
        0 <= base <= 3 * SCALE,
        1 <= power,
    ensures
        0 <= pow_fixed(base, power) <= pow3(power) * SCALE,
    decreases power,
{
    if power == 1 {
        reveal_with_fuel(pow3, 3);
        assert(pow3(1) == 3);
    } else {
        lemma_pow_fixed_growth(base, (power - 1) as nat);
        let prev: int = pow_fixed(base, (power - 1) as nat);
        let p3: int = pow3((power - 1) as nat);
        lemma_pow3_mono((power - 1) as nat, (power - 1) as nat);
        assert(0 <= prev * base <= (3 * p3) * SCALE * SCALE) by (nonlinear_arith)
            requires
                0 <= prev <= p3 * SCALE,
                0 <= base <= 3 * SCALE,
                1 <= p3,
                SCALE == 1000000,
        ;
        lemma_div_bound(prev * base, SCALE as int, (3 * p3) * SCALE);
        assert(pow3(power) == 3 * p3);
    }
}

/// `pow_fixed` of a base in [0, 1] (fixed point: [0, SCALE]) stays in
/// [0, 1].
proof fn lemma_pow_fixed_unit(base: int, power: nat)
    requires
        0 <= base <= SCALE,
        1 <= power,
    ensures
        0 <= pow_fixed(base, power) <= SCALE,
    decreases power,
{
    if power > 1 {
        lemma_pow_fixed_unit(base, (power - 1) as nat);
        let prev: int = pow_fixed(base, (power - 1) as nat);
        assert(0 <= prev * base <= SCALE * SCALE) by (nonlinear_arith)
            requires
                0 <= prev <= SCALE,
                0 <= base <= SCALE,
        ;
        lemma_div_bound(prev * base, SCALE as int, SCALE as int);
    }
}

/// Compute one site's erodibility from its per-octave noise samples.
///
/// The exponent is limited to 20 so every intermediate product fits the
/// machine integers; the reference configuration uses small single-digit
/// exponents.
pub fn erodibility(samples: &Vec<i64>, power: u32) -> (r: i64)
    requires
        samples@.len() <= 1000,
        forall|i: int| 0 <= i < samples@.len() ==> -SCALE <= #[trigger] samples@[i] <= SCALE,
        1 <= power <= 20,
    ensures
        r == erodibility_spec(samples@, power as nat),
        octaved_noise_spec(samples@, 700_000) >= 0 ==> 100_000 <= r <= 600_000,
{
    let n: i64 = octaved_noise(samples, 700_000);
    let d: i64 = SCALE - 2 * n;
    let base: i64 = if d < 0 {
        -d
    } else {
        d
    };
    proof {
        assert(base == abs_int((SCALE as int) - 2 * octaved_noise_spec(samples@, 700_000)));
        assert(0 <= base <= 3 * SCALE);
    }
    let b: i128 = base as i128;
    let mut acc: i128 = b;
    let mut k: u32 = 1;
    proof {
        reveal_with_fuel(pow3, 3);
        assert(pow3(1) == 3);
    }
    while k < power
        invariant
            1 <= k <= power,
            power <= 20,
            0 <= base <= 3 * SCALE,
            b == base as i128,
            acc == pow_fixed(base as int, k as nat),
            0 <= acc <= pow3(k as nat) * SCALE,
        decreases power - k,
    {
        proof {
            lemma_pow3_mono(k as nat, 19);
            assert(pow3(19) == 1162261467) by {
                reveal_with_fuel(pow3, 21);
            }
            let p3: int = pow3(k as nat);
            assert(0 <= acc * b <= (3 * p3) * SCALE * SCALE) by (nonlinear_arith)
                requires
                    0 <= acc <= p3 * SCALE,
                    0 <= b <= 3 * SCALE,
                    1 <= p3,
                    SCALE == 1000000,
            ;
            assert((3 * p3) * SCALE * SCALE <= 3486784401000000000000000000int) by (nonlinear_arith)
                requires
                    1 <= p3 <= 1162261467,
                    SCALE == 1000000,
            ;
            lemma_div_bound(acc as int * b as int, SCALE as int, (3 * p3) * SCALE);
            assert(pow3((k + 1) as nat) == 3 * p3);
        }
        acc = (acc * b) / (SCALE as i128);
        k = k + 1;
    }
    proof {
        lemma_pow_fixed_growth(base as int, power as nat);
        lemma_pow3_mono(power as nat, 20);
        assert(pow3(20) == 3486784401) by {
            reveal_with_fuel(pow3, 22);
        }
        lemma_div_bound(acc as int, 2, pow3(20) as int * SCALE);
        if octaved_noise_spec(samples@, 700_000) >= 0 {
            // Nonnegative combined noise keeps the base within one unit,
            // so the power and the final value stay within [0.1, 0.6].
            assert(0 <= base <= SCALE);
            lemma_pow_fixed_unit(base as int, power as nat);
        }
    }
    let half_pow: i128 = acc / 2;
    (half_pow as i64) + 100_000
}

} // verus!
