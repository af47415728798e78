//! Fault displacement of site coordinates.
//!
//! Before any other field is sampled at a site, the site's coordinate is
//! perturbed by a noise-driven displacement simulating tectonic warping: a
//! radial modulus (`|noise| * 2 * fault_scale`) scales a direction vector
//! whose two channels are independently phased noise samples (`noise * 2`
//! each). The displaced coordinate, not the original, is what every later
//! field evaluation uses.
//!
//! Coordinates are fixed-point millionths like every other scalar.

use crate::fixed::SCALE;
use crate::fixed::abs_int;
use crate::fixed::div_trunc;
use crate::fixed::tdiv;
use crate::octave::octaved_noise;
use crate::octave::octaved_noise_spec;
use vstd::prelude::*;

verus! {

/// Largest accepted fault scale: the real value one million.
pub const FAULT_SCALE_LIMIT: i64 = 1_000_000_000_000;

/// Largest accepted coordinate magnitude: the real value one thousand
/// million.
pub const COORD_LIMIT: i64 = 1_000_000_000_000_000;

/// The fault modulus: `|noise| * 2 * fault_scale`.
pub open spec fn fault_modulus_spec(samples: Seq<i64>, fault_scale: int) -> int {
    abs_int(octaved_noise_spec(samples, 500_000)) * 2 * fault_scale / (SCALE as int)
}

/// One direction channel: `noise * 2`.
pub open spec fn fault_direction_spec(samples: Seq<i64>) -> int {
    octaved_noise_spec(samples, 600_000) * 2
}

/// One displacement component: direction times modulus.
pub open spec fn displacement_spec(dir_samples: Seq<i64>, modulus: int) -> int {
    tdiv(fault_direction_spec(dir_samples) * modulus, SCALE as int)
}

/// Displace one site coordinate by the fault field.
///
/// `modulus_samples` are taken at the site itself; the two direction sample
/// vectors are taken at coordinates phase-shifted by plus and minus the
/// domain extent, so the channels decorrelate.
pub fn displace_site(
    x: i64,
    y: i64,
    modulus_samples: &Vec<i64>,
    dir_x_samples: &Vec<i64>,
    dir_y_samples: &Vec<i64>,
    fault_scale: i64,
) -> (r: (i64, i64))
    requires
        modulus_samples@.len() <= 1000,
        dir_x_samples@.len() <= 1000,
        dir_y_samples@.len() <= 1000,
        forall|i: int| 0 <= i < modulus_samples@.len() ==> -SCALE
            <= #[trigger] modulus_samples@[i] <= SCALE,
        forall|i: int| 0 <= i < dir_x_samples@.len() ==> -SCALE <= #[trigger] dir_x_samples@[i]
            <= SCALE,
        forall|i: int| 0 <= i < dir_y_samples@.len() ==> -SCALE <= #[trigger] dir_y_samples@[i]
            <= SCALE,
        0 <= fault_scale <= FAULT_SCALE_LIMIT,
        -COORD_LIMIT <= x <= COORD_LIMIT,
        -COORD_LIMIT <= y <= COORD_LIMIT,
    ensures
        ({
            let m = fault_modulus_spec(modulus_samples@, fault_scale as int);
            &&& r.0 == x + displacement_spec(dir_x_samples@, m)
            &&& r.1 == y + displacement_spec(dir_y_samples@, m)
        }),
{
    let m_noise: i64 = octaved_noise(modulus_samples, 500_000);
    let m_abs: i64 = if m_noise < 0 {
        -m_noise
    } else {
        m_noise
    };
    proof {
        assert(0 <= (m_abs * 2) * fault_scale <= 2000000000000000000int) by (nonlinear_arith)
            requires
                0 <= m_abs <= 1000000,
                0 <= fault_scale <= 1000000000000int,
        ;
    }
    let modulus: i64 = m_abs * 2 * fault_scale / SCALE;
    proof {
        assert(modulus == fault_modulus_spec(modulus_samples@, fault_scale as int));
        crate::fixed::lemma_div_bound(
            (m_abs * 2) as int * fault_scale as int,
            SCALE as int,
            2 * FAULT_SCALE_LIMIT,
        );
        assert(0 <= modulus <= 2 * FAULT_SCALE_LIMIT);
    }
    let dx_noise: i64 = octaved_noise(dir_x_samples, 600_000);
    let dy_noise: i64 = octaved_noise(dir_y_samples, 600_000);
    proof {
        assert(-4000000000000000000int <= (dx_noise * 2) * modulus <= 4000000000000000000int)
            by (nonlinear_arith)
            requires
                -1000000 <= dx_noise <= 1000000,
                0 <= modulus <= 2000000000000int,
        ;
        assert(-4000000000000000000int <= (dy_noise * 2) * modulus <= 4000000000000000000int)
            by (nonlinear_arith)
            requires
                -1000000 <= dy_noise <= 1000000,
                0 <= modulus <= 2000000000000int,
        ;
    }
    let dx: i64 = div_trunc(dx_noise * 2 * modulus, SCALE);
    let dy: i64 = div_trunc(dy_noise * 2 * modulus, SCALE);
    proof {
        crate::fixed::lemma_tdiv_bound(
            (dx_noise * 2) as int * modulus as int,
            SCALE as int,
            4 * FAULT_SCALE_LIMIT,
        );
        crate::fixed::lemma_tdiv_bound(
            (dy_noise * 2) as int * modulus as int,
            SCALE as int,
            4 * FAULT_SCALE_LIMIT,
        );
    }
    (x + dx, y + dy)
}

} // verus!
