use terrain_params::classify::classify_site;
use terrain_params::colormap::{ColorMap, ColorMapEntry};
use terrain_params::config::{derive_image_size, parse_output_format, parse_size_pair, parse_u32_digits, OutputFormat};
use terrain_params::curve::{curve, inverse_curve, land_bias};
use terrain_params::erodibility::erodibility;
use terrain_params::fault::displace_site;
use terrain_params::octave::octaved_noise;
use terrain_params::outlet::determine_outlets;
use terrain_params::render::pixel_coord;

const SCALE: i64 = 1_000_000;

/// A small deterministic generator for randomized checks.
struct Lcg(u64);

impl Lcg {
    fn next(&mut self) -> u64 {
        self.0 = self.0.wrapping_mul(6364136223846793005).wrapping_add(1442695040888963407);
        self.0 >> 11
    }

    /// A fixed-point value in [-SCALE, SCALE].
    fn sample(&mut self) -> i64 {
        (self.next() % (2 * SCALE as u64 + 1)) as i64 - SCALE
    }

    /// A fixed-point value in [0, SCALE].
    fn unit(&mut self) -> i64 {
        (self.next() % (SCALE as u64 + 1)) as i64
    }
}

#[test]
fn curve_fixed_points() {
    assert_eq!(curve(0), 0);
    assert_eq!(curve(SCALE), SCALE);
    assert_eq!(curve(500_000), 500_000);
    // The curve is monotone and flat-ended: a quarter maps well below it.
    assert!(curve(250_000) < 250_000);
    assert!(curve(750_000) > 750_000);
}

#[test]
fn curve_inverse_round_trip() {
    // Round trip within 2 millionths across the whole range.
    let mut y: i64 = 0;
    while y <= SCALE {
        let t = inverse_curve(y);
        let c = curve(t);
        assert!(c <= y, "curve(inverse({y})) = {c} overshoots");
        assert!(y - c <= 2, "curve(inverse({y})) = {c} too far below");
        y += 9_973;
    }
    let t = inverse_curve(SCALE);
    let c = curve(t);
    assert!(c <= SCALE && SCALE - c <= 2);
}

#[test]
fn land_bias_signs() {
    // Half-and-half land wants (nearly) no bias; more land wants a
    // negative bias, less land a positive one.
    let b = land_bias(500_000);
    assert!(b.abs() <= 2);
    assert!(land_bias(900_000) < 0);
    assert!(land_bias(100_000) > 0);
}

#[test]
fn octaved_noise_single_octave_is_identity() {
    assert_eq!(octaved_noise(&vec![123_456], 500_000), 123_456);
    assert_eq!(octaved_noise(&vec![-987_654], 0), -987_654);
    assert_eq!(octaved_noise(&vec![0], 700_000), 0);
}

#[test]
fn octaved_noise_no_octaves_is_zero() {
    // The documented policy for an empty octave list.
    assert_eq!(octaved_noise(&vec![], 500_000), 0);
}

#[test]
fn octaved_noise_exact_two_octaves() {
    // amps [1, 0.5]; total 1.5; sum = 1*1 + (-1)*0.5 = 0.5; 0.5/1.5 rounds
    // down to 0.333333.
    assert_eq!(octaved_noise(&vec![SCALE, -SCALE], 500_000), 333_333);
}

#[test]
fn octaved_noise_stays_in_range() {
    let mut rng = Lcg(7);
    for _ in 0..1000 {
        let octaves = (rng.next() % 8 + 1) as usize;
        let persistence = rng.unit();
        let samples: Vec<i64> = (0..octaves).map(|_| rng.sample()).collect();
        let r = octaved_noise(&samples, persistence);
        assert!(-SCALE <= r && r <= SCALE, "out of range: {r}");
    }
}

#[test]
fn outlet_path_marks_only_connected_candidates() {
    // A path 0-1-2-3-4 where only the boundary end (4) is a candidate:
    // exactly that site is marked, and marking does not spread past
    // non-candidate neighbors.
    let adjacency = vec![vec![1], vec![0, 2], vec![1, 3], vec![2, 4], vec![3]];
    let candidates = vec![false, false, false, false, true];
    let boundary = vec![4];
    let r = determine_outlets(&adjacency, &candidates, &boundary).unwrap();
    assert_eq!(r, vec![false, false, false, false, true]);
}

#[test]
fn outlet_flood_fill_follows_candidate_chains() {
    // Candidates 2-3-4 chained to the boundary are all marked; candidate 0
    // is separated by the non-candidate 1 and stays unmarked.
    let adjacency = vec![vec![1], vec![0, 2], vec![1, 3], vec![2, 4], vec![3]];
    let candidates = vec![true, false, true, true, true];
    let boundary = vec![4];
    let r = determine_outlets(&adjacency, &candidates, &boundary).unwrap();
    assert_eq!(r, vec![false, false, true, true, true]);
}

#[test]
fn outlet_fallback_picks_first_boundary_site() {
    // Boundary sites exist but none is a candidate: exactly the first
    // boundary site is marked, deterministically.
    let adjacency = vec![vec![1], vec![0, 2], vec![1, 3], vec![2, 4], vec![3]];
    let candidates = vec![false; 5];
    let boundary = vec![3, 4];
    let first = determine_outlets(&adjacency, &candidates, &boundary).unwrap();
    let second = determine_outlets(&adjacency, &candidates, &boundary).unwrap();
    assert_eq!(first, vec![false, false, false, true, false]);
    assert_eq!(first, second);
}

#[test]
fn outlet_no_boundary_is_an_explicit_signal() {
    let adjacency = vec![vec![1], vec![0]];
    let candidates = vec![true, true];
    let boundary: Vec<usize> = vec![];
    assert!(determine_outlets(&adjacency, &candidates, &boundary).is_none());
}

#[test]
fn default_colormap_endpoints_and_midpoint() {
    let cm = ColorMap::default();
    assert_eq!(cm.get_color(0), [0, 0, 0]);
    assert_eq!(cm.get_color(100_000_000), [255, 255, 255]);
    assert_eq!(cm.get_color(50_000_000), [127, 127, 127]);
    // Clamping below the lowest and above the highest breakpoint.
    assert_eq!(cm.get_color(-3_000_000), [0, 0, 0]);
    assert_eq!(cm.get_color(250_000_000), [255, 255, 255]);
}

#[test]
fn colormap_interpolates_between_breakpoints() {
    let entries = vec![
        ColorMapEntry { color: [0, 100, 200], elevation: 0 },
        ColorMapEntry { color: [100, 0, 100], elevation: 10_000_000 },
    ];
    let cm = ColorMap::from_entries(entries).unwrap();
    // A quarter of the way: each channel moves a quarter of its span,
    // rounded toward the lower breakpoint.
    assert_eq!(cm.get_color(2_500_000), [25, 75, 175]);
}

#[test]
fn colormap_descending_blend_rounds_down() {
    // A descending channel with an inexact division: the interpolated
    // value 10 - 10/3 = 6.67 rounds down to 6, exactly as a
    // truncate-after-interpolation computation gives.
    let entries = vec![
        ColorMapEntry { color: [10, 10, 10], elevation: 0 },
        ColorMapEntry { color: [0, 0, 0], elevation: 3 },
    ];
    let cm = ColorMap::from_entries(entries).unwrap();
    assert_eq!(cm.get_color(1), [6, 6, 6]);
    assert_eq!(cm.get_color(2), [3, 3, 3]);
}

#[test]
fn colormap_accepts_extreme_elevations() {
    // Any i64 elevation is accepted, in the table and in the query.
    let entries = vec![
        ColorMapEntry { color: [0, 0, 0], elevation: i64::MIN },
        ColorMapEntry { color: [200, 100, 0], elevation: i64::MAX },
    ];
    let cm = ColorMap::from_entries(entries).unwrap();
    assert_eq!(cm.get_color(i64::MIN), [0, 0, 0]);
    assert_eq!(cm.get_color(i64::MAX), [200, 100, 0]);
    // The exact midpoint of the span blends half of each channel.
    assert_eq!(cm.get_color(0), [100, 50, 0]);
}

#[test]
fn colormap_rejects_bad_tables() {
    assert!(ColorMap::from_entries(vec![]).is_none());
    let unsorted = vec![
        ColorMapEntry { color: [0, 0, 0], elevation: 5 },
        ColorMapEntry { color: [1, 1, 1], elevation: 5 },
    ];
    assert!(ColorMap::from_entries(unsorted).is_none());
    let descending = vec![
        ColorMapEntry { color: [0, 0, 0], elevation: 9 },
        ColorMapEntry { color: [1, 1, 1], elevation: 3 },
    ];
    assert!(ColorMap::from_entries(descending).is_none());
}

#[test]
fn erodibility_exact_values() {
    // A single zero sample: noise 0, base 1, any power keeps it 1, so the
    // result is 1 * 0.5 + 0.1 = 0.6.
    assert_eq!(erodibility(&vec![0], 1), 600_000);
    assert_eq!(erodibility(&vec![0], 7), 600_000);
    // Noise one half: base 0, result exactly 0.1.
    assert_eq!(erodibility(&vec![500_000], 3), 100_000);
    // Noise 0.75: base 0.5, squared 0.25, result 0.225.
    assert_eq!(erodibility(&vec![750_000], 2), 225_000);
}

#[test]
fn erodibility_range_for_nonnegative_noise() {
    let mut rng = Lcg(42);
    for _ in 0..500 {
        let octaves = (rng.next() % 6 + 1) as usize;
        let samples: Vec<i64> = (0..octaves).map(|_| rng.unit()).collect();
        let power = (rng.next() % 8 + 1) as u32;
        let e = erodibility(&samples, power);
        assert!(100_000 <= e && e <= 600_000, "erodibility {e} out of range");
    }
}

#[test]
fn classify_site_compares_plate_and_continent() {
    // All-zero noise gives plate == continent == 0.5: the comparison is
    // decided purely by the bias sign.
    assert!(classify_site(&vec![0], &vec![0], &vec![0], 1));
    assert!(!classify_site(&vec![0], &vec![0], &vec![0], 0));
    assert!(!classify_site(&vec![0], &vec![0], &vec![0], -1));
}

#[test]
fn fault_zero_scale_is_identity() {
    let (x, y) = displace_site(
        12_345_678,
        -9_876_543,
        &vec![400_000, -300_000],
        &vec![123_456],
        &vec![-654_321],
        0,
    );
    assert_eq!((x, y), (12_345_678, -9_876_543));
}

#[test]
fn fault_displacement_exact() {
    // Modulus noise 1 and direction noise 1 with fault scale 0.5: the
    // modulus is 1 * 2 * 0.5 = 1 and each displacement is 2 * 1 = 2.
    let (x, y) = displace_site(0, 0, &vec![SCALE], &vec![SCALE], &vec![-SCALE], 500_000);
    assert_eq!((x, y), (2_000_000, -2_000_000));
}

#[test]
fn pixel_coord_centers_pixels() {
    // A 100-pixel axis over [-50, 50]: pixel 0 sits at -50 + 100 * 0.5/101.
    let min = -50_000_000;
    let range = 100_000_000;
    assert_eq!(pixel_coord(min, range, 0, 100), min + range / 202);
    assert_eq!(pixel_coord(min, range, 49, 100), min + (range as i128 * 99 / 202) as i64);
}

#[test]
fn parse_size_pair_accepts_the_documented_forms() {
    assert_eq!(parse_size_pair(b"1024:-1"), Some((Some(1024), None)));
    assert_eq!(parse_size_pair(b"-1:768"), Some((None, Some(768))));
    assert_eq!(parse_size_pair(b"100:200"), Some((Some(100), Some(200))));
    assert_eq!(parse_size_pair(b"4294967295:1"), Some((Some(4294967295), Some(1))));
}

#[test]
fn parse_size_pair_rejects_malformed_input() {
    assert_eq!(parse_size_pair(b"1024"), None);
    assert_eq!(parse_size_pair(b"10:20:30"), None);
    assert_eq!(parse_size_pair(b"abc:1"), None);
    assert_eq!(parse_size_pair(b":1"), None);
    assert_eq!(parse_size_pair(b"1:"), None);
    assert_eq!(parse_size_pair(b"4294967296:1"), None);
}

#[test]
fn parse_u32_digits_handles_bounds() {
    assert_eq!(parse_u32_digits(b"0", 0, 1), Some(0));
    assert_eq!(parse_u32_digits(b"4294967295", 0, 10), Some(4294967295));
    assert_eq!(parse_u32_digits(b"4294967296", 0, 10), None);
    assert_eq!(parse_u32_digits(b"12a4", 0, 4), None);
}

#[test]
fn parse_output_format_names() {
    assert_eq!(parse_output_format(b"png"), Some(OutputFormat::Png));
    assert_eq!(parse_output_format(b"jpeg"), Some(OutputFormat::Jpeg));
    assert_eq!(parse_output_format(b"jpg"), Some(OutputFormat::Jpeg));
    assert_eq!(parse_output_format(b"csv"), Some(OutputFormat::Csv));
    assert_eq!(parse_output_format(b"bmp"), None);
    assert_eq!(parse_output_format(b""), None);
    assert_eq!(parse_output_format(b"PNG"), None);
}

#[test]
fn derive_image_size_follows_the_aspect_ratio() {
    assert_eq!(derive_image_size(Some(1024), Some(768), 100, 100), Some((1024, 768)));
    assert_eq!(derive_image_size(Some(1024), None, 100, 100), Some((1024, 1024)));
    assert_eq!(derive_image_size(None, Some(512), 200, 100), Some((1024, 512)));
    assert_eq!(derive_image_size(None, None, 100, 100), None);
    assert_eq!(derive_image_size(Some(0), Some(10), 100, 100), None);
    assert_eq!(derive_image_size(Some(1024), None, 0, 100), None);
    // A derived dimension of zero is a configuration error, not a 0x N image.
    assert_eq!(derive_image_size(Some(1), None, 1000, 1), None);
}
