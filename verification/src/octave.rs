//! Multi-octave noise combination.
//!
//! A coherent-noise field is sampled once per octave at increasing
//! frequencies; this module combines those raw samples into one normalized
//! value. Octave `i` contributes with amplitude `persistence^i`; the weighted
//! sum is divided by the total amplitude, so the result stays within
//! [-1, 1] (fixed point: [-SCALE, SCALE]) whenever the raw samples do.
//!
//! Where the samples are taken (the frequency ladder driven by the
//! lacunarity) is the sampler's business; this module only combines sample
//! values.

use crate::fixed::SCALE;
use crate::fixed::lemma_div_bound;
use crate::fixed::lemma_tdiv_bound;
use crate::fixed::lemma_tdiv_exact;
use crate::fixed::tdiv;
use vstd::prelude::*;

verus! {

/// Fixed-point amplitude of octave `i`: `persistence^i`, rounded down at
/// each step exactly as the executable accumulation rounds.
pub open spec fn amp_at(persistence: int, i: nat) -> int
    decreases i,
{
    if i == 0 {
        SCALE as int
    } else {
        amp_at(persistence, (i - 1) as nat) * persistence / (SCALE as int)
    }
}

/// Sum of the amplitudes of the first `octaves` octaves.
pub open spec fn total_amp(persistence: int, octaves: nat) -> int
    decreases octaves,
{
    if octaves == 0 {
        0
    } else {
        total_amp(persistence, (octaves - 1) as nat) + amp_at(persistence, (octaves - 1) as nat)
    }
}

/// Amplitude-weighted sum of the first `octaves` samples.
pub open spec fn weighted_sum(samples: Seq<i64>, persistence: int, octaves: nat) -> int
    decreases octaves,
{
    if octaves == 0 {
        0
    } else {
        weighted_sum(samples, persistence, (octaves - 1) as nat) + samples[octaves - 1]
            * amp_at(persistence, (octaves - 1) as nat)
    }
}

/// The normalized multi-octave noise value: the weighted sum divided by the
/// total amplitude, truncating toward zero; 0 when there are no octaves.
pub open spec fn octaved_noise_spec(samples: Seq<i64>, persistence: int) -> int {
    if samples.len() == 0 {
        0
    } else {
        tdiv(weighted_sum(samples, persistence, samples.len()), total_amp(persistence, samples.len()))
    }
}

/// Amplitudes stay within [0, SCALE] for persistence in [0, SCALE].
pub proof fn lemma_amp_bounds(persistence: int, i: nat)
    requires
        0 <= persistence <= SCALE,
    ensures
        0 <= amp_at(persistence, i) <= SCALE,
    decreases i,
{
    if i > 0 {
        lemma_amp_bounds(persistence, (i - 1) as nat);
        let a: int = amp_at(persistence, (i - 1) as nat);
        assert(0 <= a * persistence <= SCALE * SCALE) by (nonlinear_arith)
            requires
                0 <= a <= SCALE,
                0 <= persistence <= SCALE,
        ;
        lemma_div_bound(a * persistence, SCALE as int, SCALE as int);
    }
}

/// The total amplitude of at least one octave is at least the base
/// amplitude SCALE, and grows at most linearly.
pub proof fn lemma_total_amp_bounds(persistence: int, octaves: nat)
    requires
        0 <= persistence <= SCALE,
    ensures
        octaves >= 1 ==> SCALE <= total_amp(persistence, octaves),
        0 <= total_amp(persistence, octaves) <= octaves * SCALE,
    decreases octaves,
{
    if octaves > 0 {
        lemma_total_amp_bounds(persistence, (octaves - 1) as nat);
        lemma_amp_bounds(persistence, (octaves - 1) as nat);
    }
}

/// The weighted sum of samples within [-SCALE, SCALE] is bounded by
/// SCALE times the total amplitude.
pub proof fn lemma_weighted_sum_bound(samples: Seq<i64>, persistence: int, octaves: nat)
    requires
        0 <= persistence <= SCALE,
        octaves <= samples.len(),
        forall|i: int| 0 <= i < octaves ==> -SCALE <= #[trigger] samples[i] <= SCALE,
    ensures
        -(SCALE * total_amp(persistence, octaves)) <= weighted_sum(samples, persistence, octaves)
            <= SCALE * total_amp(persistence, octaves),
    decreases octaves,
{
    if octaves > 0 {
        let o1: nat = (octaves - 1) as nat;
        lemma_weighted_sum_bound(samples, persistence, o1);
        lemma_amp_bounds(persistence, o1);
        lemma_total_amp_bounds(persistence, o1);
        let s: int = samples[octaves - 1] as int;
        let a: int = amp_at(persistence, o1);
        assert(-(SCALE * a) <= s * a <= SCALE * a) by (nonlinear_arith)
            requires
                -SCALE <= s <= SCALE,
                0 <= a,
        ;
    }
}

/// Nonnegative samples give a nonnegative weighted sum.
pub proof fn lemma_weighted_sum_nonneg(samples: Seq<i64>, persistence: int, octaves: nat)
    requires
        0 <= persistence <= SCALE,
        octaves <= samples.len(),
        forall|i: int| 0 <= i < octaves ==> #[trigger] samples[i] >= 0,
    ensures
        weighted_sum(samples, persistence, octaves) >= 0,
    decreases octaves,
{
    if octaves > 0 {
        let o1: nat = (octaves - 1) as nat;
        lemma_weighted_sum_nonneg(samples, persistence, o1);
        lemma_amp_bounds(persistence, o1);
        let s: int = samples[octaves - 1] as int;
        let a: int = amp_at(persistence, o1);
        assert(s * a >= 0) by (nonlinear_arith)
            requires
                s >= 0,
                a >= 0,
        ;
    }
}

/// Combine per-octave noise samples into one normalized value.
///
/// `samples[i]` is the raw noise sample of octave `i` (taken by the caller
/// at frequency `lacunarity^i`); `persistence` scales each octave's
/// amplitude relative to the previous one. With no octaves the result is
/// defined to be 0 (the total amplitude degenerates to zero, so there is
/// nothing to normalize).
pub fn octaved_noise(samples: &Vec<i64>, persistence: i64) -> (r: i64)
    requires
        0 <= persistence <= SCALE,
        samples@.len() <= 1000,
        forall|i: int| 0 <= i < samples@.len() ==> -SCALE <= #[trigger] samples@[i] <= SCALE,
    ensures
        r == octaved_noise_spec(samples@, persistence as int),
        -SCALE <= r <= SCALE,
        samples@.len() == 1 ==> r == samples@[0],
        samples@.len() == 0 ==> r == 0,
        (forall|i: int| 0 <= i < samples@.len() ==> #[trigger] samples@[i] >= 0) ==> r >= 0,
{
    let octaves: usize = samples.len();
    if octaves == 0 {
        return 0;
    }
    let ghost p: int = persistence as int;
    let mut value: i64 = 0;
    let mut amp: i64 = SCALE;
    let mut total: i64 = 0;
    let mut k: usize = 0;
    while k < octaves
        invariant
            0 <= persistence <= SCALE,
            octaves == samples@.len(),
            octaves <= 1000,
            p == persistence as int,
            forall|i: int| 0 <= i < samples@.len() ==> -SCALE <= #[trigger] samples@[i] <= SCALE,
            k <= octaves,
            amp == amp_at(p, k as nat),
            0 <= amp <= SCALE,
            total == total_amp(p, k as nat),
            0 <= total <= k * SCALE,
            value == weighted_sum(samples@, p, k as nat),
            -(SCALE * total) <= value <= SCALE * total,
        decreases octaves - k,
    {
        let s: i64 = samples[k];
        proof {
            assert(-(SCALE * amp) <= s * amp <= SCALE * amp) by (nonlinear_arith)
                requires
                    -SCALE <= s <= SCALE,
                    0 <= amp,
            ;
            assert(SCALE * (total + amp) == SCALE * total + SCALE * amp) by (nonlinear_arith);
            assert(SCALE * (total + amp) <= SCALE * ((k + 1) * SCALE)) by (nonlinear_arith)
                requires
                    total + amp <= k * SCALE + SCALE,
                    0 <= k < 1000,
            ;
        }
        value = value + s * amp;
        total = total + amp;
        proof {
            assert(0 <= amp * persistence <= SCALE * SCALE) by (nonlinear_arith)
                requires
                    0 <= amp <= SCALE,
                    0 <= persistence <= SCALE,
            ;
            lemma_div_bound(amp as int * persistence as int, SCALE as int, SCALE as int);
        }
        amp = (amp * persistence) / SCALE;
        k = k + 1;
    }
    proof {
        lemma_total_amp_bounds(p, octaves as nat);
        lemma_tdiv_bound(value as int, total as int, SCALE as int);
        if octaves == 1 {
            // One octave: the weighted sum is sample * SCALE and the total
            // amplitude is SCALE, so normalization is the identity.
            assert(weighted_sum(samples@, p, 1) == samples@[0] * (SCALE as int));
            lemma_tdiv_exact(samples@[0] as int, SCALE as int);
        }
        if forall|i: int| 0 <= i < samples@.len() ==> #[trigger] samples@[i] >= 0 {
            lemma_weighted_sum_nonneg(samples@, p, octaves as nat);
            lemma_div_bound(value as int, total as int, SCALE as int);
        }
    }
    crate::fixed::div_trunc(value, total)
}

} // verus!
