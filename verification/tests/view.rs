use graph_plotter::input::GridPeriods;
use graph_plotter::input::InputSnapshot;
use graph_plotter::surface::BACKGROUND_COLOR;
use graph_plotter::surface::GraphPlotter;
use graph_plotter::transform::MathCoord;

const IDLE: InputSnapshot = InputSnapshot {
    up: false,
    down: false,
    right: false,
    left: false,
    reset: false,
};

fn default_periods() -> GridPeriods {
    GridPeriods { period_x: 150, period_y: 150 }
}

#[test]
fn transform_round_trip_returns_same_column() {
    let p = GraphPlotter::new(1000, 800);
    for px in [0usize, 1, 123, 499, 500, 501, 999, 1000, 5000] {
        let c = p.to_math_x(px);
        assert_eq!(p.to_pixel_x(&c), Some(px));
    }
    let q = GraphPlotter::new(33, 7);
    for px in 0..40usize {
        let c = q.to_math_x(px);
        assert_eq!(q.to_pixel_x(&c), Some(px));
    }
}

#[test]
fn to_pixel_y_inverts_the_vertical_axis() {
    let p = GraphPlotter::new(1000, 800);
    // Math y = 1 lies 50 pixels above the center row 400.
    let one = MathCoord { num: 1_000_000, den: 1_000_000 };
    assert_eq!(p.to_pixel_y(&one), Some(350));
    let minus_two = MathCoord { num: -2_000_000, den: 1_000_000 };
    assert_eq!(p.to_pixel_y(&minus_two), Some(500));
    // A value far above the window has no pixel row.
    let huge = MathCoord { num: 9_000_000, den: 1 };
    assert_eq!(p.to_pixel_y(&huge), None);
}

#[test]
fn to_pixel_y_truncates_toward_zero() {
    let p = GraphPlotter::new(1000, 800);
    // y = 1/3 at scale 50: 400 - 16.66.. truncates to 400 - 16.
    let third = MathCoord { num: 1, den: 3 };
    assert_eq!(p.to_pixel_y(&third), Some(384));
}

#[test]
fn down_key_never_shrinks_scale_below_minimum() {
    let mut p = GraphPlotter::new(1000, 800);
    let mut periods = default_periods();
    let down = InputSnapshot { down: true, ..IDLE };
    for _ in 0..30 {
        p.handle_input(&mut periods, &down);
        assert!(p.scale_y >= 10);
    }
    assert_eq!(p.scale_y, 10);
    assert_eq!(p.scale_x, 50);
}

#[test]
fn left_key_never_shrinks_scale_below_minimum() {
    let mut p = GraphPlotter::new(1000, 800);
    let mut periods = default_periods();
    let left = InputSnapshot { left: true, ..IDLE };
    for _ in 0..30 {
        p.handle_input(&mut periods, &left);
        assert!(p.scale_x >= 10);
    }
    assert_eq!(p.scale_x, 10);
    assert_eq!(p.scale_y, 50);
}

#[test]
fn up_and_right_grow_scales_and_periods() {
    let mut p = GraphPlotter::new(1000, 800);
    let mut periods = default_periods();
    let grow = InputSnapshot { up: true, right: true, ..IDLE };
    p.handle_input(&mut periods, &grow);
    assert_eq!(p.scale_y, 52);
    assert_eq!(p.scale_x, 52);
    assert_eq!(periods.period_y, 152);
    assert_eq!(periods.period_x, 152);
}

#[test]
fn reset_restores_defaults_from_any_state() {
    let mut p = GraphPlotter::new(1000, 800);
    let mut periods = default_periods();
    let up = InputSnapshot { up: true, ..IDLE };
    for _ in 0..13 {
        p.handle_input(&mut periods, &up);
    }
    let down = InputSnapshot { down: true, ..IDLE };
    for _ in 0..5 {
        p.handle_input(&mut periods, &down);
    }
    let reset = InputSnapshot { reset: true, ..IDLE };
    p.handle_input(&mut periods, &reset);
    assert_eq!(p.scale_x, 50);
    assert_eq!(p.scale_y, 50);
    assert_eq!(periods.period_x, 156);
    assert_eq!(periods.period_y, 100);
}

#[test]
fn shrinking_floors_the_grid_periods() {
    let mut p = GraphPlotter::new(1000, 800);
    // Periods this small cannot arise from the default state (the scale
    // floor blocks further decrements first), so start from them
    // directly: the guards floor the y period at 6 and the x period at 4.
    let mut periods = GridPeriods { period_x: 6, period_y: 8 };
    let shrink = InputSnapshot { down: true, left: true, ..IDLE };
    for _ in 0..5 {
        p.handle_input(&mut periods, &shrink);
    }
    assert_eq!(periods.period_y, 6);
    assert_eq!(periods.period_x, 4);
}

#[test]
fn effective_input_clears_the_buffer() {
    let mut p = GraphPlotter::new(100, 80);
    let mut periods = default_periods();
    p.draw_pixel(5, 5, 0x42);
    let idle = IDLE;
    p.handle_input(&mut periods, &idle);
    assert_eq!(p.buffer[5 * p.width + 5], 0x42);
    let up = InputSnapshot { up: true, ..IDLE };
    p.handle_input(&mut periods, &up);
    assert!(p.buffer.iter().all(|&c| c == BACKGROUND_COLOR));
}
