use graph_plotter::surface::GraphPlotter;
use graph_plotter::transform::MathCoord;
use meval::Expr;

/// Samples every pixel column for a bound expression, skipping columns
/// whose value is non-finite or out of the representable range.
fn sample_expr(p: &GraphPlotter, f: &dyn Fn(f64) -> f64) -> Vec<Option<usize>> {
    let mut samples = Vec::new();
    for px in 0..p.width {
        let c = p.to_math_x(px);
        let x = c.num as f64 / c.den as f64;
        let y = f(x);
        if !y.is_finite() || y.abs() > 1e12 {
            samples.push(None);
            continue;
        }
        let scaled = (y * 1_000_000.0) as i128;
        samples.push(p.to_pixel_y(&MathCoord { num: scaled, den: 1_000_000 }));
    }
    samples
}

#[test]
fn identity_expression_passes_through_origin_and_unit_point() {
    let expr: Expr = "x".parse().expect("expression should parse");
    let f = expr.bind("x").expect("x should bind");
    let mut p = GraphPlotter::new(1000, 800);
    let samples = sample_expr(&p, &f);
    p.draw_curve(&samples, 0);
    // The origin (0, 0) sits at pixel (500, 400); the math point (1, 1)
    // at (550, 350), 50 pixels right and 50 up at the default scale.
    assert_eq!(p.buffer[400 * p.width + 500], 0);
    assert_eq!(p.buffer[350 * p.width + 550], 0);
}

#[test]
fn malformed_expression_fails_to_parse() {
    let parsed = "x +* 2".parse::<Expr>();
    assert!(parsed.is_err());
}

#[test]
fn sine_expression_stays_within_one_unit_of_the_center_row() {
    let expr: Expr = "sin(x)".parse().expect("expression should parse");
    let f = expr.bind("x").expect("x should bind");
    let p = GraphPlotter::new(1000, 800);
    let samples = sample_expr(&p, &f);
    for s in samples {
        let row = s.expect("sine is finite everywhere");
        assert!((350..=450).contains(&row), "row {} outside the unit band", row);
    }
}
