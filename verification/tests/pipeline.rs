//! End-to-end determinism of the parameter synthesis pipeline, driven by a
//! real coherent-noise field.

use noise::{NoiseFn, Perlin};
use terrain_params::classify::classify_site;
use terrain_params::curve::land_bias;
use terrain_params::erodibility::erodibility;
use terrain_params::fault::displace_site;
use terrain_params::outlet::determine_outlets;

const SCALE: i64 = 1_000_000;

fn to_fixed(v: f64) -> i64 {
    (v.clamp(-1.0, 1.0) * SCALE as f64) as i64
}

/// Per-octave noise samples at `(x / scale, y / scale)`, frequencies rising
/// by `lacunarity` per octave.
fn octave_samples(
    perlin: &Perlin,
    x: f64,
    y: f64,
    octaves: usize,
    lacunarity: f64,
    scale: f64,
) -> Vec<i64> {
    let mut samples = Vec::with_capacity(octaves);
    let mut freq = 1.0;
    for _ in 0..octaves {
        samples.push(to_fixed(perlin.get([x / scale * freq, y / scale * freq, 0.0])));
        freq *= lacunarity;
    }
    samples
}

struct RunOutput {
    outlets: Vec<bool>,
    erodibilities: Vec<i64>,
}

/// One full parameter-synthesis run: seed 0, a 100 x 100 bound holding 500
/// sites on a 25 x 20 grid whose outer ring is the boundary, fault scale 0,
/// land ratio 0.6, erodibility exponent 4.
fn run_pipeline() -> RunOutput {
    let perlin = Perlin::new(0);
    let cols = 25usize;
    let rows = 20usize;
    let n = cols * rows;

    let mut sites: Vec<(f64, f64)> = Vec::with_capacity(n);
    let mut boundary: Vec<usize> = Vec::new();
    let mut adjacency: Vec<Vec<usize>> = Vec::with_capacity(n);
    for r in 0..rows {
        for c in 0..cols {
            let i = r * cols + c;
            let x = -50.0 + 100.0 * (c as f64 + 0.5) / cols as f64;
            let y = -50.0 + 100.0 * (r as f64 + 0.5) / rows as f64;
            sites.push((x, y));
            if r == 0 || r == rows - 1 || c == 0 || c == cols - 1 {
                boundary.push(i);
            }
            let mut neigh = Vec::new();
            if c > 0 {
                neigh.push(i - 1);
            }
            if c + 1 < cols {
                neigh.push(i + 1);
            }
            if r > 0 {
                neigh.push(i - cols);
            }
            if r + 1 < rows {
                neigh.push(i + cols);
            }
            adjacency.push(neigh);
        }
    }

    let bias = land_bias(600_000);
    let fault_scale_fixed = 0i64;
    let bound = 100.0;

    let mut candidates: Vec<bool> = Vec::with_capacity(n);
    let mut erodibilities: Vec<i64> = Vec::with_capacity(n);
    for &(x, y) in &sites {
        // Fault displacement (zero scale leaves the site in place, but the
        // call path is the same as a real run's).
        let modulus_samples = octave_samples(&perlin, x / 100.0, y / 100.0, 3, 2.0, 1.0);
        let dir_x_samples =
            octave_samples(&perlin, (x + bound) / 100.0, (y + bound) / 100.0, 4, 2.2, 1.0);
        let dir_y_samples =
            octave_samples(&perlin, (x - bound) / 100.0, (y - bound) / 100.0, 4, 2.2, 1.0);
        let (fx, fy) = displace_site(
            (x * SCALE as f64) as i64,
            (y * SCALE as f64) as i64,
            &modulus_samples,
            &dir_x_samples,
            &dir_y_samples,
            fault_scale_fixed,
        );
        let dx = fx as f64 / SCALE as f64;
        let dy = fy as f64 / SCALE as f64;

        let persistence_samples = octave_samples(&perlin, dx, dy, 2, 2.0, 50.0);
        let plate_samples = octave_samples(&perlin, dx, dy, 8, 2.4, 50.0);
        let continent_samples = octave_samples(&perlin, dx, dy, 3, 1.8, 200.0);
        candidates.push(classify_site(&persistence_samples, &plate_samples, &continent_samples, bias));

        let erod_samples = octave_samples(&perlin, dx, dy, 5, 2.2, 75.0);
        erodibilities.push(erodibility(&erod_samples, 4));
    }

    let outlets = determine_outlets(&adjacency, &candidates, &boundary)
        .expect("boundary sites exist, so an outlet set must too");
    RunOutput { outlets, erodibilities }
}

#[test]
fn pipeline_is_deterministic() {
    let first = run_pipeline();
    let second = run_pipeline();
    assert_eq!(first.outlets, second.outlets);
    assert_eq!(first.erodibilities, second.erodibilities);
    assert_eq!(first.outlets.len(), 500);
    assert_eq!(first.erodibilities.len(), 500);
}

#[test]
fn pipeline_erodibilities_are_positive() {
    let run = run_pipeline();
    for e in run.erodibilities {
        assert!(e > 0, "erodibility must be positive, got {e}");
    }
}
