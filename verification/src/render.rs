//! Raster-to-domain coordinate mapping.
//!
//! Pixel `(i, j)` of a `w x h` image samples the terrain at the domain
//! point `min + range * ((i + 0.5) / (w + 1))` per axis; in fixed point that
//! is `min + range * (2 i + 1) / (2 (w + 1))`, rounding toward zero. The
//! rendering loop itself (elevation queries and pixel writes) stays with
//! the caller; this is the arithmetic it relies on.

use crate::fixed::abs_int;
use crate::fixed::tdiv;
use vstd::prelude::*;

verus! {

/// Largest accepted coordinate or extent magnitude.
pub const RANGE_LIMIT: i64 = 1_000_000_000_000_000;

/// Map one pixel index on one axis to its domain coordinate.
pub fn pixel_coord(min: i64, range: i64, index: u32, size: u32) -> (r: i64)
    requires
        -RANGE_LIMIT <= min <= RANGE_LIMIT,
        -RANGE_LIMIT <= range <= RANGE_LIMIT,
        index < size,
    ensures
        r == min + tdiv(range * (2 * index + 1), 2 * (size + 1)),
{
    let two_i: i128 = 2 * (index as i128) + 1;
    let den: i128 = 2 * ((size as i128) + 1);
    proof {
        assert(-10000000000000000000000000int <= (range as i128) * two_i
            <= 10000000000000000000000000int) by (nonlinear_arith)
            requires
                -1000000000000000int <= range <= 1000000000000000int,
                0 <= two_i <= 10000000000int,
        ;
        assert(abs_int((range as i128) * two_i) <= abs_int(range as int) * den)
            by (nonlinear_arith)
            requires
                0 < two_i <= den,
        ;
    }
    let num: i128 = (range as i128) * two_i;
    let q: i128 = if num >= 0 {
        num / den
    } else {
        -((-num) / den)
    };
    proof {
        crate::fixed::lemma_tdiv_bound(num as int, den as int, abs_int(range as int));
        assert(q == tdiv(num as int, den as int));
    }
    min + (q as i64)
}

} // verus!
