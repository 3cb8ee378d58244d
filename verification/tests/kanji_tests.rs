use aa_media::kanji::{classify, level_of, lookup, Direction, DIAG_LEFT, DIAG_RIGHT, HORIZONTAL, UNIFORM, VERTICAL};

const MAG_THRESHOLD: f32 = 50.0;

fn classify_reference(gx: f32, gy: f32) -> Direction {
    let mag = (gx * gx + gy * gy).sqrt();
    if mag < MAG_THRESHOLD {
        return Direction::Uniform;
    }
    let ax = gx.abs();
    let ay = gy.abs();
    if ax > ay * 2.0 {
        Direction::Vertical
    } else if ay > ax * 2.0 {
        Direction::Horizontal
    } else if (gx > 0.0) == (gy > 0.0) {
        Direction::DiagRight
    } else {
        Direction::DiagLeft
    }
}

const DENSITIES: [f32; 10] = [0.00, 0.10, 0.20, 0.30, 0.40, 0.50, 0.60, 0.72, 0.85, 1.00];

fn level_reference(density: f32) -> usize {
    let mut best = 0;
    let mut best_dist = (density - DENSITIES[0]).abs();
    for (i, &d) in DENSITIES.iter().enumerate().skip(1) {
        let dist = (density - d).abs();
        if dist < best_dist {
            best_dist = dist;
            best = i;
        }
    }
    best
}

/// The float density and gradient of a cell with the given quadrant sums.
fn cell_reference(q: [u32; 4]) -> (f32, f32, f32) {
    let q_pixels = 4.0f32;
    let tl = q[0] as f32 / q_pixels;
    let tr = q[1] as f32 / q_pixels;
    let bl = q[2] as f32 / q_pixels;
    let br = q[3] as f32 / q_pixels;
    let avg_lum = (tl + tr + bl + br) / 4.0;
    let density = avg_lum / 255.0;
    let gx = (tr + br) - (tl + bl);
    let gy = (bl + br) - (tl + tr);
    (density, gx, gy)
}

#[test]
fn classify_matches_float_gradients() {
    // quadrant sums range over 0..=1020; gradients in quarter units over -2040..=2040
    for gx4 in (-2040i32..=2040).step_by(3) {
        for gy4 in (-2040i32..=2040).step_by(7) {
            let expected = classify_reference(gx4 as f32 / 4.0, gy4 as f32 / 4.0);
            assert_eq!(classify(gx4, gy4), expected, "{} {}", gx4, gy4);
        }
    }
    for gx4 in -260i32..=260 {
        for gy4 in -260i32..=260 {
            let expected = classify_reference(gx4 as f32 / 4.0, gy4 as f32 / 4.0);
            assert_eq!(classify(gx4, gy4), expected, "{} {}", gx4, gy4);
        }
    }
}

#[test]
fn classify_quadrant_cells() {
    let mut seed: u64 = 7;
    for _ in 0..200_000 {
        let mut q = [0u32; 4];
        for v in q.iter_mut() {
            seed = seed.wrapping_mul(6364136223846793005).wrapping_add(1442695040888963407);
            *v = ((seed >> 33) % 1021) as u32;
        }
        let (_, gx, gy) = cell_reference(q);
        let gx4 = (q[1] + q[3]) as i32 - (q[0] + q[2]) as i32;
        let gy4 = (q[2] + q[3]) as i32 - (q[0] + q[1]) as i32;
        assert_eq!(classify(gx4, gy4), classify_reference(gx, gy));
    }
}

#[test]
fn level_matches_float_density_for_every_sum() {
    for sum in 0u32..=4080 {
        // split the sum over four quadrants in two ways
        let even = [sum / 4, sum / 4, sum / 4, sum - 3 * (sum / 4)];
        let skew = [sum.min(1020), sum.saturating_sub(1020).min(1020), sum.saturating_sub(2040).min(1020), sum.saturating_sub(3060)];
        for q in [even, skew] {
            let (density, _, _) = cell_reference(q);
            assert_eq!(level_of(sum), level_reference(density), "sum {}", sum);
        }
    }
}

#[test]
fn level_boundaries() {
    assert_eq!(level_of(0), 0);
    assert_eq!(level_of(204), 0);
    assert_eq!(level_of(205), 1);
    assert_eq!(level_of(611), 1);
    assert_eq!(level_of(612), 2);
    assert_eq!(level_of(3774), 8);
    assert_eq!(level_of(3775), 9);
    assert_eq!(level_of(4080), 9);
}

#[test]
fn lookup_tables() {
    assert_eq!(lookup(0, Direction::Uniform), '\u{3000}');
    assert_eq!(lookup(4080, Direction::Uniform), '鬱');
    assert_eq!(lookup(4080, Direction::Horizontal), '議');
    assert_eq!(lookup(2040, Direction::Vertical), '州');
    assert_eq!(lookup(408, Direction::DiagRight), 'ノ');
    assert_eq!(lookup(800, Direction::DiagRight), '八');
    assert_eq!(lookup(3000, Direction::DiagLeft), '後');
    assert_eq!(UNIFORM[3], '日');
    assert_eq!(HORIZONTAL[1], '一');
    assert_eq!(VERTICAL[2], '川');
    assert_eq!(DIAG_RIGHT[9], '繊');
    assert_eq!(DIAG_LEFT[4], '久');
}

#[test]
fn direction_ignores_polarity() {
    for (gx, gy) in [(300, 20), (-300, 20), (100, 150), (-100, 150), (10, 10), (0, 500), (400, -390)] {
        assert_eq!(classify(gx, gy), classify(-gx, -gy));
    }
}

#[test]
fn classify_examples() {
    assert_eq!(classify(0, 0), Direction::Uniform);
    assert_eq!(classify(199, 0), Direction::Uniform);
    assert_eq!(classify(200, 0), Direction::Vertical);
    assert_eq!(classify(0, -200), Direction::Horizontal);
    assert_eq!(classify(200, 150), Direction::DiagRight);
    assert_eq!(classify(-200, 150), Direction::DiagLeft);
}

#[test]
fn level_is_nearest_density() {
    let dens = [0i64, 10, 20, 30, 40, 50, 60, 72, 85, 100];
    for sum in 0u32..=4080 {
        let level = level_of(sum);
        let dist = |l: usize| (100 * sum as i64 - 4080 * dens[l]).abs();
        for other in 0..10 {
            assert!(dist(level) <= dist(other), "sum {} level {} other {}", sum, level, other);
        }
    }
}
