use graph_plotter::surface::BACKGROUND_COLOR;
use graph_plotter::surface::GraphPlotter;
use graph_plotter::transform::MathCoord;

fn pix(p: &GraphPlotter, x: usize, y: usize) -> u32 {
    p.buffer[y * p.width + x]
}

/// Samples every pixel column of `p` for the function `f`, by the same
/// inverse-then-forward mapping the interactive program uses.
fn sample<F: Fn(f64) -> f64>(p: &GraphPlotter, f: F) -> Vec<Option<usize>> {
    let mut samples = Vec::new();
    for px in 0..p.width {
        let c = p.to_math_x(px);
        let x = c.num as f64 / c.den as f64;
        let y = f(x);
        if !y.is_finite() || y.abs() > 1e12 {
            samples.push(None);
            continue;
        }
        let scaled = (y * 1_000_000.0) as i128;
        samples.push(p.to_pixel_y(&MathCoord { num: scaled, den: 1_000_000 }));
    }
    samples
}

#[test]
fn dot_and_diagonal_neighbor_are_drawn() {
    let mut p = GraphPlotter::new(8, 8);
    let mut samples: Vec<Option<usize>> = vec![None; 8];
    samples[2] = Some(3);
    p.draw_curve(&samples, 0x11);
    assert_eq!(pix(&p, 2, 3), 0x11);
    assert_eq!(pix(&p, 3, 4), 0x11);
    for y in 0..8 {
        for x in 0..8 {
            if (x, y) != (2, 3) && (x, y) != (3, 4) {
                assert_eq!(pix(&p, x, y), BACKGROUND_COLOR);
            }
        }
    }
}

#[test]
fn adjacent_samples_are_joined_vertically() {
    let mut p = GraphPlotter::new(8, 8);
    let samples = vec![Some(1usize), Some(5usize)];
    let mut padded = samples.clone();
    padded.extend(std::iter::repeat(None).take(6));
    p.draw_curve(&padded, 0x22);
    // The connecting segment fills rows 1..=5 at column 0 and rows
    // 2..=6 at column 1, on top of the two dots.
    for y in 1..=5 {
        assert_eq!(pix(&p, 0, y), 0x22);
    }
    for y in 2..=6 {
        assert_eq!(pix(&p, 1, y), 0x22);
    }
    assert_eq!(pix(&p, 0, 0), BACKGROUND_COLOR);
    assert_eq!(pix(&p, 0, 6), BACKGROUND_COLOR);
}

#[test]
fn missing_sample_breaks_the_polyline() {
    let mut p = GraphPlotter::new(8, 8);
    let mut samples: Vec<Option<usize>> = vec![None; 8];
    samples[0] = Some(0);
    samples[2] = Some(6);
    p.draw_curve(&samples, 0x33);
    assert_eq!(pix(&p, 0, 0), 0x33);
    assert_eq!(pix(&p, 1, 1), 0x33);
    assert_eq!(pix(&p, 2, 6), 0x33);
    assert_eq!(pix(&p, 3, 7), 0x33);
    // No connecting segment crosses the gap at column 1.
    for y in 2..6 {
        assert_eq!(pix(&p, 1, y), BACKGROUND_COLOR);
        assert_eq!(pix(&p, 2, y), BACKGROUND_COLOR);
    }
}

#[test]
fn linear_curve_leaves_no_vertical_gap() {
    let mut p = GraphPlotter::new(1000, 800);
    let samples = sample(&p, |x| x);
    p.draw_curve(&samples, 0x44);
    for px in 1..1000usize {
        if let (Some(prev), Some(cur)) = (samples[px - 1], samples[px]) {
            let lo = prev.min(cur);
            let hi = prev.max(cur);
            for y in lo..=hi {
                if y < 800 {
                    assert_eq!(pix(&p, px - 1, y), 0x44, "gap at column {} row {}", px - 1, y);
                }
            }
        }
    }
}

#[test]
fn steep_curve_leaves_no_vertical_gap() {
    let mut p = GraphPlotter::new(200, 200);
    let samples = sample(&p, |x| 7.0 * x);
    p.draw_curve(&samples, 0x55);
    for px in 1..200usize {
        if let (Some(prev), Some(cur)) = (samples[px - 1], samples[px]) {
            let lo = prev.min(cur);
            let hi = prev.max(cur);
            for y in lo..=hi {
                if y < 200 {
                    assert_eq!(pix(&p, px - 1, y), 0x55, "gap at column {} row {}", px - 1, y);
                }
            }
        }
    }
}
