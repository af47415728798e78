//! Candidate-outlet classification.
//!
//! Each site is classified from three noise signals sampled at its
//! fault-displaced coordinate: a persistence signal (which in turn drives the
//! plate signal's octave falloff), a plate signal, and a continent signal at
//! a larger spatial scale. The site is a candidate outlet (ocean) when the
//! plate signal exceeds the continent signal minus the land-ratio bias, so a
//! higher requested land ratio shifts more sites into land.

use crate::fixed::HALF;
use crate::fixed::SCALE;
use crate::fixed::abs_int;
use crate::fixed::div_trunc;
use crate::fixed::tdiv;
use crate::octave::octaved_noise;
use crate::octave::octaved_noise_spec;
use vstd::prelude::*;

verus! {

/// The persistence signal: `|noise| * 0.7 + 0.3`, in [0.3, 1].
pub open spec fn persistence_signal_spec(samples: Seq<i64>) -> int {
    abs_int(octaved_noise_spec(samples, 500_000)) * 7 / 10 + 300_000
}

/// The plate signal: `noise * 0.5 + 0.5`, where the noise combination uses
/// the persistence signal as its octave falloff.
pub open spec fn plate_signal_spec(samples: Seq<i64>, persistence: int) -> int {
    tdiv(octaved_noise_spec(samples, persistence), 2) + (HALF as int)
}

/// The continent signal: `noise * 0.7 + 0.5`.
pub open spec fn continent_signal_spec(samples: Seq<i64>) -> int {
    tdiv(octaved_noise_spec(samples, 500_000) * 7, 10) + (HALF as int)
}

/// A site is a candidate outlet when its plate signal exceeds its continent
/// signal minus the land-ratio bias.
pub open spec fn is_candidate_spec(
    persistence_samples: Seq<i64>,
    plate_samples: Seq<i64>,
    continent_samples: Seq<i64>,
    bias: int,
) -> bool {
    plate_signal_spec(plate_samples, persistence_signal_spec(persistence_samples))
        > continent_signal_spec(continent_samples) - bias
}

/// Classify one site from its three per-octave sample vectors and the
/// land-ratio bias.
pub fn classify_site(
    persistence_samples: &Vec<i64>,
    plate_samples: &Vec<i64>,
    continent_samples: &Vec<i64>,
    bias: i64,
) -> (r: bool)
    requires
        persistence_samples@.len() <= 1000,
        plate_samples@.len() <= 1000,
        continent_samples@.len() <= 1000,
        forall|i: int| 0 <= i < persistence_samples@.len() ==> -SCALE
            <= #[trigger] persistence_samples@[i] <= SCALE,
        forall|i: int| 0 <= i < plate_samples@.len() ==> -SCALE <= #[trigger] plate_samples@[i]
            <= SCALE,
        forall|i: int| 0 <= i < continent_samples@.len() ==> -SCALE
            <= #[trigger] continent_samples@[i] <= SCALE,
        -SCALE <= bias <= SCALE,
    ensures
        r == is_candidate_spec(persistence_samples@, plate_samples@, continent_samples@, bias as int),
{
    let p_noise: i64 = octaved_noise(persistence_samples, HALF);
    let p_abs: i64 = if p_noise < 0 {
        -p_noise
    } else {
        p_noise
    };
    let persistence: i64 = p_abs * 7 / 10 + 300_000;
    proof {
        assert(persistence == persistence_signal_spec(persistence_samples@));
        assert(0 <= persistence <= SCALE);
    }
    let plate_noise: i64 = octaved_noise(plate_samples, persistence);
    let plate: i64 = div_trunc(plate_noise, 2) + HALF;
    let c_noise: i64 = octaved_noise(continent_samples, HALF);
    let continent: i64 = div_trunc(c_noise * 7, 10) + HALF;
    plate > continent - bias
}

} // verus!
