//! Configuration values and the small parsers behind them.
//!
//! The command line supplies sizes as a `"width:height"` pair where either
//! half of the image size may be `-1`, meaning "derive this dimension from
//! the aspect ratio of the domain bound". Splitting and digit parsing are
//! verified here over raw bytes; reading the command line itself stays with
//! the caller.

use vstd::prelude::*;

verus! {

/// The supported output image encodings.
#[derive(Clone, Copy, Debug, PartialEq, Eq, Structural)]
pub enum OutputFormat {
    Png,
    Jpeg,
    Csv,
}

/// Every byte in `[lo, hi)` is an ASCII digit.
pub open spec fn all_digits(s: Seq<u8>, lo: int, hi: int) -> bool {
    forall|j: int| lo <= j < hi ==> 48 <= #[trigger] s[j] <= 57
}

/// The decimal value of the digits in `[lo, hi)`.
pub open spec fn digits_value(s: Seq<u8>, lo: int, hi: int) -> int
    decreases hi - lo,
{
    if hi <= lo {
        0
    } else {
        digits_value(s, lo, hi - 1) * 10 + (s[hi - 1] - 48)
    }
}

/// The bytes in `[lo, hi)` are the two-byte token `-1`.
pub open spec fn is_minus_one(s: Seq<u8>, lo: int, hi: int) -> bool {
    hi - lo == 2 && s[lo] == 45 && s[lo + 1] == 49
}

/// The bytes in `[lo, hi)` form a valid size token: `-1` or a decimal
/// number that fits an unsigned 32-bit integer.
pub open spec fn valid_size_token(s: Seq<u8>, lo: int, hi: int) -> bool {
    ||| is_minus_one(s, lo, hi)
    ||| (lo < hi && all_digits(s, lo, hi) && digits_value(s, lo, hi) <= u32::MAX)
}

/// What a valid size token means: `-1` is "unset", digits are the value.
pub open spec fn size_token_value(s: Seq<u8>, lo: int, hi: int) -> Option<u32>
    recommends
        valid_size_token(s, lo, hi),
{
    if is_minus_one(s, lo, hi) {
        None
    } else {
        Some(digits_value(s, lo, hi) as u32)
    }
}

proof fn lemma_digits_nonneg(s: Seq<u8>, lo: int, hi: int)
    requires
        all_digits(s, lo, hi),
    ensures
        digits_value(s, lo, hi) >= 0,
    decreases hi - lo,
{
    if hi > lo {
        lemma_digits_nonneg(s, lo, hi - 1);
    }
}

/// A digit prefix never exceeds the full number's value.
proof fn lemma_digits_prefix_le(s: Seq<u8>, lo: int, mid: int, hi: int)
    requires
        lo <= mid <= hi,
        all_digits(s, lo, hi),
    ensures
        digits_value(s, lo, mid) <= digits_value(s, lo, hi),
    decreases hi - mid,
{
    if mid < hi {
        lemma_digits_prefix_le(s, lo, mid, hi - 1);
        lemma_digits_nonneg(s, lo, hi - 1);
    }
}

/// Parse the decimal digits in `s[lo..hi]` as an unsigned 32-bit value.
///
/// Returns `None` when the range is empty, holds a non-digit, or the value
/// does not fit (the caller treats all three as the same fatal
/// configuration error).
pub fn parse_u32_digits(s: &[u8], lo: usize, hi: usize) -> (r: Option<u32>)
    requires
        lo <= hi <= s@.len(),
    ensures
        r is Some <==> (lo < hi && all_digits(s@, lo as int, hi as int) && digits_value(
            s@,
            lo as int,
            hi as int,
        ) <= u32::MAX),
        r matches Some(v) ==> v == digits_value(s@, lo as int, hi as int),
{
    if lo == hi {
        return None;
    }
    let mut acc: u64 = 0;
    let mut j: usize = lo;
    while j < hi
        invariant
            lo <= j <= hi <= s@.len(),
            all_digits(s@, lo as int, j as int),
            acc == digits_value(s@, lo as int, j as int),
            acc <= u32::MAX,
        decreases hi - j,
    {
        let c: u8 = s[j];
        if c < 48 || c > 57 {
            return None;
        }
        acc = acc * 10 + ((c - 48) as u64);
        j = j + 1;
        if acc > u32::MAX as u64 {
            proof {
                if all_digits(s@, lo as int, hi as int) {
                    lemma_digits_prefix_le(s@, lo as int, j as int, hi as int);
                }
            }
            return None;
        }
    }
    Some(acc as u32)
}

/// Parse one size token: `-1` for "unset" or a decimal value.
pub fn parse_size_token(s: &[u8], lo: usize, hi: usize) -> (r: Option<Option<u32>>)
    requires
        lo <= hi <= s@.len(),
    ensures
        r is Some <==> valid_size_token(s@, lo as int, hi as int),
        r matches Some(v) ==> v == size_token_value(s@, lo as int, hi as int),
{
    if hi - lo == 2 {
        if s[lo] == 45 && s[lo + 1] == 49 {
            return Some(None);
        }
    }
    proof {
        assert(!is_minus_one(s@, lo as int, hi as int));
    }
    match parse_u32_digits(s, lo, hi) {
        Some(v) => Some(Some(v)),
        None => None,
    }
}

/// `k` is the position of the only colon in `s`.
pub open spec fn single_colon_at(s: Seq<u8>, k: int) -> bool {
    &&& 0 <= k < s.len()
    &&& s[k] == 58
    &&& forall|j: int| 0 <= j < s.len() && j != k ==> #[trigger] s[j] != 58
}

/// Parse a `"width:height"` pair where each half is `-1` or a decimal
/// number. Returns `None` when there is not exactly one colon or a half is
/// malformed: the caller treats that as a fatal configuration error.
pub fn parse_size_pair(s: &[u8]) -> (r: Option<(Option<u32>, Option<u32>)>)
    ensures
        r is Some <==> exists|k: int|
            {
                &&& #[trigger] single_colon_at(s@, k)
                &&& valid_size_token(s@, 0, k)
                &&& valid_size_token(s@, k + 1, s@.len() as int)
            },
        r matches Some(v) ==> exists|k: int|
            {
                &&& #[trigger] single_colon_at(s@, k)
                &&& valid_size_token(s@, 0, k)
                &&& valid_size_token(s@, k + 1, s@.len() as int)
                &&& v.0 == size_token_value(s@, 0, k)
                &&& v.1 == size_token_value(s@, k + 1, s@.len() as int)
            },
{
    let n: usize = s.len();
    let mut colon: usize = n;
    let mut j: usize = 0;
    while j < n
        invariant
            j <= n,
            n == s@.len(),
            colon <= n,
            colon == n ==> forall|t: int| 0 <= t < j ==> #[trigger] s@[t] != 58,
            colon < n ==> colon < j,
            colon < n ==> s@[colon as int] == 58 && (forall|t: int|
                0 <= t < j && t != colon ==> #[trigger] s@[t] != 58),
        decreases n - j,
    {
        if s[j] == 58 {
            if colon < n {
                // A second colon: the pair is malformed.
                proof {
                    assert forall|k: int| !single_colon_at(s@, k) by {
                        if single_colon_at(s@, k) {
                            if k != colon {
                                assert(s@[colon as int] != 58);
                            } else {
                                assert(s@[j as int] != 58);
                            }
                        }
                    }
                }
                return None;
            }
            colon = j;
        }
        j = j + 1;
    }
    if colon == n {
        // No colon at all.
        proof {
            assert forall|k: int| !single_colon_at(s@, k) by {
                if single_colon_at(s@, k) {
                    assert(s@[k] != 58);
                }
            }
        }
        return None;
    }
    proof {
        assert(single_colon_at(s@, colon as int));
        assert forall|k: int| #[trigger] single_colon_at(s@, k) implies k == colon as int by {
            if k != colon {
                assert(s@[colon as int] != 58);
            }
        }
    }
    let first: Option<u32> = match parse_size_token(s, 0, colon) {
        Some(v) => v,
        None => {
            return None;
        },
    };
    let second: Option<u32> = match parse_size_token(s, colon + 1, n) {
        Some(v) => v,
        None => {
            return None;
        },
    };
    Some((first, second))
}

/// Decide the output raster's dimensions.
///
/// An unset dimension is derived from the other one by the domain bound's
/// aspect ratio (`bw : bh`, both already truncated to whole units). The
/// result is `None` when both dimensions are unset, when a needed bound is
/// zero, when a derived value does not fit 32 bits, or when either final
/// dimension is zero: all fatal configuration errors.
pub fn derive_image_size(iw: Option<u32>, ih: Option<u32>, bw: u32, bh: u32) -> (r: Option<
    (u32, u32),
>)
    ensures
        r == image_size_spec(iw, ih, bw as int, bh as int),
{
    match (iw, ih) {
        (Some(w), Some(h)) => {
            if w == 0 || h == 0 {
                None
            } else {
                Some((w, h))
            }
        },
        (Some(w), None) => {
            if bw == 0 {
                None
            } else {
                proof {
                    assert(w as u64 * bh as u64 <= 18446744065119617025u64) by (nonlinear_arith)
                        requires
                            w <= 0xffffffffu64,
                            bh <= 0xffffffffu64,
                    ;
                }
                let h64: u64 = (w as u64) * (bh as u64) / (bw as u64);
                if h64 == 0 || h64 > 0xffff_ffff {
                    None
                } else {
                    Some((w, h64 as u32))
                }
            }
        },
        (None, Some(h)) => {
            if bh == 0 {
                None
            } else {
                proof {
                    assert(h as u64 * bw as u64 <= 18446744065119617025u64) by (nonlinear_arith)
                        requires
                            h <= 0xffffffffu64,
                            bw <= 0xffffffffu64,
                    ;
                }
                let w64: u64 = (h as u64) * (bw as u64) / (bh as u64);
                if w64 == 0 || w64 > 0xffff_ffff {
                    None
                } else {
                    Some((w64 as u32, h))
                }
            }
        },
        (None, None) => None,
    }
}

/// The image-size rule of [`derive_image_size`], as a mathematical
/// function.
pub open spec fn image_size_spec(iw: Option<u32>, ih: Option<u32>, bw: int, bh: int) -> Option<
    (u32, u32),
> {
    match (iw, ih) {
        (Some(w), Some(h)) => if w == 0 || h == 0 {
            None
        } else {
            Some((w, h))
        },
        (Some(w), None) => if bw == 0 {
            None
        } else {
            let h = w * bh / bw;
            if h == 0 || h > u32::MAX {
                None
            } else {
                Some((w, h as u32))
            }
        },
        (None, Some(h)) => if bh == 0 {
            None
        } else {
            let w = h * bw / bh;
            if w == 0 || w > u32::MAX {
                None
            } else {
                Some((w as u32, h))
            }
        },
        (None, None) => None,
    }
}

/// Which output format a command-line token names: `png`, `jpeg` (also
/// spelled `jpg`), or `csv`; anything else is a fatal configuration error.
pub open spec fn output_format_spec(s: Seq<u8>) -> Option<OutputFormat> {
    if s == seq![112u8, 110u8, 103u8] {
        Some(OutputFormat::Png)
    } else if s == seq![106u8, 112u8, 101u8, 103u8] {
        Some(OutputFormat::Jpeg)
    } else if s == seq![106u8, 112u8, 103u8] {
        Some(OutputFormat::Jpeg)
    } else if s == seq![99u8, 115u8, 118u8] {
        Some(OutputFormat::Csv)
    } else {
        None
    }
}

/// Map an output-format token (as bytes) to the format it names.
pub fn parse_output_format(s: &[u8]) -> (r: Option<OutputFormat>)
    ensures
        r == output_format_spec(s@),
{
    let n: usize = s.len();
    if n == 3 && s[0] == 112 && s[1] == 110 && s[2] == 103 {
        proof {
            assert(s@ =~= seq![112u8, 110u8, 103u8]);
        }
        return Some(OutputFormat::Png);
    }
    if n == 4 && s[0] == 106 && s[1] == 112 && s[2] == 101 && s[3] == 103 {
        proof {
            assert(s@ =~= seq![106u8, 112u8, 101u8, 103u8]);
            assert(s@ != seq![112u8, 110u8, 103u8]);
        }
        return Some(OutputFormat::Jpeg);
    }
    if n == 3 && s[0] == 106 && s[1] == 112 && s[2] == 103 {
        proof {
            assert(s@ =~= seq![106u8, 112u8, 103u8]);
            assert(s@ != seq![112u8, 110u8, 103u8]);
            assert(s@ != seq![106u8, 112u8, 101u8, 103u8]);
        }
        return Some(OutputFormat::Jpeg);
    }
    if n == 3 && s[0] == 99 && s[1] == 115 && s[2] == 118 {
        proof {
            assert(s@ =~= seq![99u8, 115u8, 118u8]);
            assert(s@ != seq![112u8, 110u8, 103u8]);
            assert(s@ != seq![106u8, 112u8, 101u8, 103u8]);
            assert(s@ != seq![106u8, 112u8, 103u8]);
        }
        return Some(OutputFormat::Csv);
    }
    proof {
        assert(s@ != seq![112u8, 110u8, 103u8]) by {
            if s@ == seq![112u8, 110u8, 103u8] {
                assert(s@.len() == 3 && s@[0] == 112u8 && s@[1] == 110u8 && s@[2] == 103u8);
            }
        }
        assert(s@ != seq![106u8, 112u8, 101u8, 103u8]) by {
            if s@ == seq![106u8, 112u8, 101u8, 103u8] {
                assert(s@.len() == 4 && s@[0] == 106u8 && s@[1] == 112u8 && s@[2] == 101u8
                    && s@[3] == 103u8);
            }
        }
        assert(s@ != seq![106u8, 112u8, 103u8]) by {
            if s@ == seq![106u8, 112u8, 103u8] {
                assert(s@.len() == 3 && s@[0] == 106u8 && s@[1] == 112u8 && s@[2] == 103u8);
            }
        }
        assert(s@ != seq![99u8, 115u8, 118u8]) by {
            if s@ == seq![99u8, 115u8, 118u8] {
                assert(s@.len() == 3 && s@[0] == 99u8 && s@[1] == 115u8 && s@[2] == 118u8);
            }
        }
    }
    None
}

} // verus!
