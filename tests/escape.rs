use fractal_atlas::escape::{escape_step, escape_time, EscapeStep, OrbitSample};
use fractal_atlas::pixels::{intensity, pixel_at, render_tile, Resolution};

fn sample(norm_sqr: f32) -> OrbitSample {
    if !norm_sqr.is_finite() || norm_sqr > 4.0 {
        OrbitSample::Outside
    } else if norm_sqr <= 1e-5 {
        OrbitSample::NearOrigin
    } else {
        OrbitSample::Inside
    }
}

fn orbit(re: f32, im: f32, len: usize) -> Vec<OrbitSample> {
    let (mut zr, mut zi) = (0.0f32, 0.0f32);
    let mut out = Vec::new();
    for _ in 0..len {
        out.push(sample(zr * zr + zi * zi));
        let next_r = zr * zr - zi * zi + re;
        zi = 2.0 * zr * zi + im;
        zr = next_r;
    }
    out
}

#[test]
fn origin_never_escapes() {
    for limit in [1u16, 2, 3, 10, 256, 1000] {
        assert_eq!(escape_time(&orbit(0.0, 0.0, limit as usize), limit), None);
    }
}

#[test]
fn escape_time_ignores_unused_budget() {
    let o = orbit(1.0, 1.0, 400);
    let first = escape_time(&o, 10);
    assert_eq!(first, Some(2));
    for limit in [3u16, 4, 50, 256, 400] {
        assert_eq!(escape_time(&o, limit), Some(2));
    }
    assert_eq!(escape_time(&o, 2), None);
}

#[test]
fn far_point_escapes_at_first_step() {
    let o = orbit(-2.0, 1.5, 10);
    assert_eq!(escape_time(&o, 10), Some(1));
}

#[test]
fn collapse_stops_early_only_after_first_iteration() {
    let o = vec![OrbitSample::NearOrigin, OrbitSample::Inside, OrbitSample::NearOrigin, OrbitSample::Outside];
    assert_eq!(escape_time(&o, 4), None);
    let o = vec![OrbitSample::NearOrigin, OrbitSample::Inside, OrbitSample::Inside, OrbitSample::Outside];
    assert_eq!(escape_time(&o, 4), Some(3));
    assert_eq!(escape_time(&o, 3), None);
}

#[test]
fn non_finite_counts_as_escape() {
    assert_eq!(sample(f32::NAN), OrbitSample::Outside);
    let o = vec![OrbitSample::Inside, sample(f32::INFINITY)];
    assert_eq!(escape_time(&o, 2), Some(1));
}

#[test]
fn step_decisions() {
    assert_eq!(escape_step(0, 5, OrbitSample::NearOrigin), EscapeStep::Continue);
    assert_eq!(escape_step(1, 5, OrbitSample::NearOrigin), EscapeStep::Done(None));
    assert_eq!(escape_step(3, 5, OrbitSample::Outside), EscapeStep::Done(Some(3)));
    assert_eq!(escape_step(3, 5, OrbitSample::Inside), EscapeStep::Continue);
    assert_eq!(escape_step(5, 5, OrbitSample::Outside), EscapeStep::Done(None));
}

#[test]
fn four_by_four_tile_end_to_end() {
    let res = Resolution { width: 4, height: 4 };
    let limit: u16 = 10;
    let (x_min, x_max, y_min, y_max) = (-2.0f32, 1.0f32, -1.5f32, 1.5f32);
    let ax = (x_max - x_min) / 4.0;
    let bx = x_min;
    let ay = (y_max - y_min) / (0.0 - 4.0);
    let by = y_min - 4.0 * ay;
    let mut entries = Vec::new();
    for k in 0..16u64 {
        let (x, y) = pixel_at(&res, k);
        let c = (x as f32 * ax + bx, y as f32 * ay + by);
        let r = escape_time(&orbit(c.0, c.1, limit as usize), limit);
        entries.push(((x, y), r));
    }
    assert_eq!(entries[0], ((0, 0), Some(1)));
    // pixel (2, 2) maps to c = -0.5 + 0i, inside the set
    assert_eq!(entries[2 * 4 + 2], ((2, 2), None));
    let img = render_tile(&res, &entries, limit);
    assert_eq!(img.data[0], 230);
    assert_eq!(img.data[0], intensity(Some(1), limit));
    assert_eq!(img.data[2 + 2 * 4], 0);
    assert!(img.is_worth_persisting(20));
}
