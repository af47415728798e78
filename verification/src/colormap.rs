//! Elevation-to-color mapping.
//!
//! A colormap is an ordered table of (elevation, RGB) breakpoints, strictly
//! ascending by elevation. A query below the first breakpoint clamps to the
//! first color, above the last to the last color, and in between each RGB
//! channel is the linearly interpolated value rounded down (the value lies
//! between the two breakpoint channels, so rounding down and truncating
//! toward zero agree). Tables that are not strictly ascending are rejected
//! on construction rather than silently misinterpolated.
//!
//! Elevations are fixed-point millionths like every other scalar; any `i64`
//! elevation is accepted.

use vstd::arithmetic::div_mod::lemma_div_is_ordered;
use vstd::prelude::*;

verus! {

/// One breakpoint: an elevation and the color shown at it.
#[derive(Clone, Copy, Debug)]
pub struct ColorMapEntry {
    pub color: [u8; 3],
    pub elevation: i64,
}

/// A well-formed table: non-empty, strictly ascending by elevation.
pub open spec fn entries_wf(s: Seq<ColorMapEntry>) -> bool {
    &&& s.len() >= 1
    &&& forall|i: int|
        0 <= i < s.len() - 1 ==> (#[trigger] s[i].elevation) < s[i + 1].elevation
}

/// The index of the first breakpoint whose elevation exceeds `e`, or the
/// table length when none does.
pub open spec fn first_above(s: Seq<ColorMapEntry>, e: int) -> int
    decreases s.len(),
{
    if s.len() == 0 {
        0
    } else if e < s[0].elevation {
        0
    } else {
        1 + first_above(s.subrange(1, s.len() as int), e)
    }
}

/// One interpolated channel: the floor of `a + (b - a) * num / den`, the
/// linear interpolation between channels `a` and `b` rounded down.
pub open spec fn blend_channel(a: int, b: int, num: int, den: int) -> int {
    (a * den + (b - a) * num) / den
}

/// The color the table assigns to elevation `e`.
pub open spec fn color_at(s: Seq<ColorMapEntry>, e: int, c: int) -> int
    recommends
        entries_wf(s),
        0 <= c < 3,
{
    let i = first_above(s, e);
    if i == 0 {
        s[0].color@[c] as int
    } else if i == s.len() {
        s[s.len() - 1].color@[c] as int
    } else {
        blend_channel(
            s[i - 1].color@[c] as int,
            s[i].color@[c] as int,
            e - s[i - 1].elevation,
            s[i].elevation - s[i - 1].elevation,
        )
    }
}

/// A scan position that saw only elevations at most `e` and stopped at the
/// first larger one is exactly `first_above`.
proof fn lemma_first_above_char(s: Seq<ColorMapEntry>, e: int, i: int)
    requires
        0 <= i <= s.len(),
        forall|j: int| 0 <= j < i ==> (#[trigger] s[j].elevation) <= e,
        i < s.len() ==> e < s[i].elevation,
    ensures
        first_above(s, e) == i,
    decreases s.len(),
{
    if s.len() == 0 {
    } else if e < s[0].elevation {
        if i > 0 {
            assert(s[0].elevation <= e);
        }
    } else {
        assert(i >= 1) by {
            if i == 0 {
                assert(e < s[0].elevation);
            }
        }
        let t = s.subrange(1, s.len() as int);
        assert forall|j: int| 0 <= j < i - 1 implies (#[trigger] t[j].elevation) <= e by {
            assert(t[j] == s[j + 1]);
        }
        assert(i - 1 < t.len() ==> e < t[i - 1].elevation) by {
            if i - 1 < t.len() {
                assert(t[i - 1] == s[i]);
            }
        }
        lemma_first_above_char(t, e, i - 1);
    }
}

/// A value between two nonnegative multiples of a positive divisor divides
/// to a quotient between the two multipliers.
proof fn lemma_div_between(lo: int, hi: int, v: int, den: int)
    requires
        0 <= lo <= hi,
        den > 0,
        lo * den <= v <= hi * den,
    ensures
        lo <= v / den <= hi,
{
    assert(lo * den >= 0 && hi * den >= 0) by (nonlinear_arith)
        requires
            lo >= 0,
            hi >= 0,
            den > 0,
    ;
    crate::fixed::lemma_tdiv_exact(lo, den);
    crate::fixed::lemma_tdiv_exact(hi, den);
    lemma_div_is_ordered(lo * den, v, den);
    lemma_div_is_ordered(v, hi * den, den);
}

/// The elevation-to-color table.
pub struct ColorMap {
    entries: Vec<ColorMapEntry>,
}

impl View for ColorMap {
    type V = Seq<ColorMapEntry>;

    closed spec fn view(&self) -> Seq<ColorMapEntry> {
        self.entries@
    }
}

/// Interpolate one channel between breakpoint channels `a` and `b`: the
/// floor of the interpolated value, which always lies between the two
/// channels.
fn blend_one(a: u8, b: u8, num: i128, den: i128) -> (r: u8)
    requires
        0 < den < 18446744073709551616i128,
        0 <= num < den,
    ensures
        r as int == blend_channel(a as int, b as int, num as int, den as int),
{
    let na: i128 = a as i128;
    let nb: i128 = b as i128;
    proof {
        assert(0 <= na * den <= 255 * den) by (nonlinear_arith)
            requires
                0 <= na <= 255,
                0 < den,
        ;
        assert(-(255 * den) <= (nb - na) * num && (nb - na) * num <= 255 * den)
            by (nonlinear_arith)
            requires
                -255 <= nb - na <= 255,
                0 <= num < den,
        ;
        if nb >= na {
            assert((nb - na) * num >= 0 && (nb - na) * num <= (nb - na) * den)
                by (nonlinear_arith)
                requires
                    nb - na >= 0,
                    0 <= num <= den,
            ;
            assert(na * den + (nb - na) * den == nb * den) by (nonlinear_arith);
        } else {
            assert((nb - na) * num <= 0 && (nb - na) * num >= (nb - na) * den)
                by (nonlinear_arith)
                requires
                    nb - na < 0,
                    0 <= num <= den,
            ;
            assert(na * den + (nb - na) * den == nb * den) by (nonlinear_arith);
        }
    }
    let numerator: i128 = na * den + (nb - na) * num;
    let q: i128 = numerator / den;
    proof {
        if nb >= na {
            lemma_div_between(na as int, nb as int, numerator as int, den as int);
        } else {
            lemma_div_between(nb as int, na as int, numerator as int, den as int);
        }
    }
    q as u8
}

impl Default for ColorMap {
    /// The default table is the two-entry grayscale map.
    fn default() -> (r: ColorMap)
        ensures
            r.wf(),
            r@.len() == 2,
            r@[0].elevation == 0 && r@[0].color@ =~= seq![0u8, 0u8, 0u8],
            r@[1].elevation == 100_000_000 && r@[1].color@ =~= seq![255u8, 255u8, 255u8],
    {
        ColorMap::grayscale()
    }
}

impl ColorMap {
    /// The table is well formed: this is what the constructors establish
    /// and `get_color` relies on.
    pub open spec fn wf(&self) -> bool {
        entries_wf(self@)
    }

    /// Build a colormap from a breakpoint table, rejecting tables that are
    /// empty or not strictly ascending by elevation.
    pub fn from_entries(entries: Vec<ColorMapEntry>) -> (r: Option<ColorMap>)
        ensures
            r is Some <==> entries_wf(entries@),
            r matches Some(cm) ==> cm@ == entries@ && cm.wf(),
    {
        let n: usize = entries.len();
        if n == 0 {
            return None;
        }
        let mut i: usize = 0;
        while i < n
            invariant
                i <= n,
                n == entries@.len(),
                forall|j: int|
                    0 <= j < i && j + 1 < n ==> (#[trigger] entries@[j].elevation) < entries@[j
                        + 1].elevation,
            decreases n - i,
        {
            if i + 1 < n {
                if entries[i + 1].elevation <= entries[i].elevation {
                    return None;
                }
            }
            i = i + 1;
        }
        Some(ColorMap { entries })
    }

    /// The two-entry grayscale table: black at elevation 0, white at 100.
    pub fn grayscale() -> (r: ColorMap)
        ensures
            r.wf(),
            r@.len() == 2,
            r@[0].elevation == 0 && r@[0].color@ =~= seq![0u8, 0u8, 0u8],
            r@[1].elevation == 100_000_000 && r@[1].color@ =~= seq![255u8, 255u8, 255u8],
    {
        let mut entries: Vec<ColorMapEntry> = Vec::new();
        entries.push(ColorMapEntry { color: [0, 0, 0], elevation: 0 });
        entries.push(ColorMapEntry { color: [255, 255, 255], elevation: 100_000_000 });
        ColorMap { entries }
    }

    /// Look up the color for an elevation by piecewise-linear
    /// interpolation over the breakpoint table.
    pub fn get_color(&self, elevation: i64) -> (r: [u8; 3])
        requires
            self.wf(),
        ensures
            forall|c: int| 0 <= c < 3 ==> (#[trigger] r@[c]) as int == color_at(
                self@,
                elevation as int,
                c,
            ),
    {
        let n: usize = self.entries.len();
        let mut i: usize = 0;
        while i < n && !(elevation < self.entries[i].elevation)
            invariant
                i <= n,
                n == self@.len(),
                self.wf(),
                forall|j: int| 0 <= j < i ==> (#[trigger] self@[j].elevation) <= elevation,
            decreases n - i,
        {
            i = i + 1;
        }
        proof {
            lemma_first_above_char(self@, elevation as int, i as int);
        }
        if i == 0 {
            self.entries[0].color
        } else if i == n {
            self.entries[n - 1].color
        } else {
            let ea: i64 = self.entries[i - 1].elevation;
            let eb: i64 = self.entries[i].elevation;
            let ca: [u8; 3] = self.entries[i - 1].color;
            let cb: [u8; 3] = self.entries[i].color;
            let den: i128 = eb as i128 - ea as i128;
            let num: i128 = elevation as i128 - ea as i128;
            let r0: u8 = blend_one(ca[0], cb[0], num, den);
            let r1: u8 = blend_one(ca[1], cb[1], num, den);
            let r2: u8 = blend_one(ca[2], cb[2], num, den);
            let out: [u8; 3] = [r0, r1, r2];
            proof {
                assert(out@[0] == r0 && out@[1] == r1 && out@[2] == r2);
            }
            out
        }
    }
}

} // verus!
