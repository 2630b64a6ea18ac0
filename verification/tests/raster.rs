use graph_plotter::surface::GraphPlotter;
use graph_plotter::surface::AXIS_COLOR;
use graph_plotter::surface::BACKGROUND_COLOR;

fn pix(p: &GraphPlotter, x: usize, y: usize) -> u32 {
    p.buffer[y * p.width + x]
}

#[test]
fn new_has_defaults() {
    let p = GraphPlotter::new(1000, 800);
    assert_eq!(p.width, 1000);
    assert_eq!(p.height, 800);
    assert_eq!(p.scale_x, 50);
    assert_eq!(p.scale_y, 50);
    assert_eq!(p.offset_x, 500);
    assert_eq!(p.offset_y, 400);
    assert_eq!(p.buffer.len(), 1000 * 800);
    assert!(p.buffer.iter().all(|&c| c == BACKGROUND_COLOR));
}

#[test]
fn clear_sets_every_pixel() {
    let mut p = GraphPlotter::new(30, 20);
    p.draw_pixel(3, 4, 0x123456);
    p.clear(0xABCDEF);
    assert!(p.buffer.iter().all(|&c| c == 0xABCDEF));
}

#[test]
fn draw_pixel_in_bounds_sets_one_pixel() {
    let mut p = GraphPlotter::new(10, 10);
    p.draw_pixel(3, 4, 0x42);
    assert_eq!(pix(&p, 3, 4), 0x42);
    for y in 0..10 {
        for x in 0..10 {
            if (x, y) != (3, 4) {
                assert_eq!(pix(&p, x, y), BACKGROUND_COLOR);
            }
        }
    }
}

#[test]
fn draw_pixel_out_of_bounds_is_ignored() {
    let mut p = GraphPlotter::new(10, 10);
    let before = p.buffer.clone();
    p.draw_pixel(10, 0, 0x42);
    p.draw_pixel(0, 10, 0x42);
    p.draw_pixel(usize::MAX, usize::MAX, 0x42);
    assert_eq!(p.buffer, before);
}

#[test]
fn axis_column_and_row_are_centered() {
    let mut p = GraphPlotter::new(1000, 800);
    p.draw_axis();
    for y in 0..800 {
        assert_eq!(pix(&p, 500, y), AXIS_COLOR);
        assert_eq!(pix(&p, 499, y), AXIS_COLOR);
    }
    for x in 0..1000 {
        assert_eq!(pix(&p, x, 400), AXIS_COLOR);
        assert_eq!(pix(&p, x, 399), AXIS_COLOR);
    }
    assert_eq!(pix(&p, 0, 0), BACKGROUND_COLOR);
    assert_eq!(pix(&p, 498, 398), BACKGROUND_COLOR);
}

#[test]
fn axis_at_origin_skips_companion_line() {
    let mut p = GraphPlotter::new(4, 4);
    p.offset_x = 0;
    p.offset_y = 0;
    p.draw_axis();
    assert_eq!(pix(&p, 0, 2), AXIS_COLOR);
    assert_eq!(pix(&p, 2, 0), AXIS_COLOR);
    assert_eq!(pix(&p, 1, 1), BACKGROUND_COLOR);
}

#[test]
fn grid_follows_accelerating_spacing() {
    let mut p = GraphPlotter::new(21, 21);
    p.draw_grid(0, 25, 4);
    // 21 / 4 = 5 horizontal line pairs at distances (i + 4*i) / 2 from
    // row 10: 0, 2, 5, 7, 10; no vertical lines since 21 / 25 = 0.
    let mut expected_rows = Vec::new();
    for d in [0usize, 2, 5, 7, 10] {
        expected_rows.push(10 - d);
        expected_rows.push(10 + d);
    }
    for y in 0..21 {
        for x in 0..21 {
            if expected_rows.contains(&y) {
                assert_eq!(pix(&p, x, y), 0, "row {} should be a grid line", y);
            } else {
                assert_eq!(pix(&p, x, y), BACKGROUND_COLOR, "row {} should be empty", y);
            }
        }
    }
}

#[test]
fn grid_draws_vertical_lines_symmetrically() {
    let mut p = GraphPlotter::new(20, 5);
    p.draw_grid(7, 8, 100);
    // 20 / 8 = 2 vertical line pairs at distances (i + 8*i) / 2 from
    // column 10: 0 and 4; no horizontal lines since 5 / 100 = 0.
    for y in 0..5 {
        for x in 0..20 {
            let on = x == 10 || x == 6 || x == 14;
            if on {
                assert_eq!(pix(&p, x, y), 7);
            } else {
                assert_eq!(pix(&p, x, y), BACKGROUND_COLOR);
            }
        }
    }
}
