use rael::{Canvas, Color, CompositedCell, TerminalPixel};

const BLACK: Color = Color { r: 0, g: 0, b: 0 };
const RED: Color = Color { r: 255, g: 0, b: 0 };
const GREEN: Color = Color { r: 0, g: 255, b: 0 };
const BLUE: Color = Color { r: 0, g: 0, b: 255 };

fn cell(row: usize, col: usize, top: Color, bottom: Color) -> String {
    format!(
        "\u{1b}[{};{}H\u{1b}[48;2;{};{};{}m\u{1b}[38;2;{};{};{}m\u{2584}",
        row, col, top.r, top.g, top.b, bottom.r, bottom.g, bottom.b
    )
}

/// A canvas whose first, full redraw has already been rendered.
fn settled(width: usize, height: usize, default_color: Color) -> Canvas {
    let mut canvas = Canvas::new(width, height, default_color);
    canvas.render();
    canvas
}

#[test]
fn two_by_one_grid_renders_top_and_bottom_colors() {
    let mut canvas = Canvas::new(2, 1, BLACK);
    canvas.set_pixel(0, 0, 0, RED);
    canvas.set_pixel(0, 1, 0, GREEN);
    let first = canvas.render();
    // The first render also redraws the untouched cell, whose previous state
    // was seeded with the complement of the default color.
    let expected = cell(1, 1, RED, GREEN) + &cell(1, 2, BLACK, BLACK);
    assert_eq!(first, expected);
    assert_eq!(canvas.render(), "");
}

#[test]
fn two_by_one_grid_after_settling_emits_single_cell() {
    let mut canvas = settled(2, 1, BLACK);
    canvas.set_pixel(0, 0, 0, RED);
    canvas.set_pixel(0, 1, 0, GREEN);
    assert_eq!(canvas.render(), cell(1, 1, RED, GREEN));
    assert_eq!(canvas.render(), "");
}

#[test]
fn first_render_covers_every_cell_once() {
    let mut canvas = Canvas::new(3, 2, BLACK);
    let out = canvas.render();
    let mut expected = String::new();
    for row in 1..=2 {
        for col in 1..=3 {
            expected.push_str(&cell(row, col, BLACK, BLACK));
        }
    }
    assert_eq!(out, expected);
    assert_eq!(out.matches('\u{2584}').count(), 6);
}

#[test]
fn first_render_uses_the_default_color() {
    let gray = Color { r: 12, g: 200, b: 7 };
    let mut canvas = Canvas::new(1, 1, gray);
    assert_eq!(canvas.render(), cell(1, 1, gray, gray));
}

#[test]
fn clear_then_render_twice_is_empty() {
    let mut canvas = Canvas::new(4, 3, BLACK);
    canvas.clear();
    assert!(!canvas.render().is_empty());
    canvas.clear();
    assert_eq!(canvas.render(), "");
}

#[test]
fn clear_erases_drawn_pixels_on_next_render() {
    let mut canvas = settled(2, 2, BLACK);
    canvas.set_pixel(1, 3, 4, BLUE);
    assert_eq!(canvas.render(), cell(2, 2, BLACK, BLUE));
    canvas.clear();
    assert_eq!(canvas.render(), cell(2, 2, BLACK, BLACK));
}

#[test]
fn clear_does_not_force_redraw_of_unchanged_cells() {
    let mut canvas = settled(2, 2, BLACK);
    canvas.clear();
    assert_eq!(canvas.render(), "");
}

#[test]
fn higher_layer_wins() {
    let mut canvas = settled(1, 1, BLACK);
    canvas.set_pixel(0, 0, 1, RED);
    canvas.set_pixel(0, 0, 3, GREEN);
    assert_eq!(canvas.render(), cell(1, 1, GREEN, BLACK));
}

#[test]
fn higher_layer_wins_regardless_of_write_order() {
    let mut canvas = settled(1, 1, BLACK);
    canvas.set_pixel(0, 1, 3, GREEN);
    canvas.set_pixel(0, 1, 1, RED);
    assert_eq!(canvas.render(), cell(1, 1, BLACK, GREEN));
}

#[test]
fn top_layer_is_drawn() {
    let mut canvas = settled(1, 1, BLACK);
    canvas.set_pixel(0, 0, 0, RED);
    canvas.set_pixel(0, 0, 9, BLUE);
    assert_eq!(canvas.render(), cell(1, 1, BLUE, BLACK));
}

#[test]
fn default_color_on_upper_layer_is_transparent() {
    let mut canvas = settled(1, 1, BLACK);
    canvas.set_pixel(0, 0, 2, RED);
    canvas.set_pixel(0, 0, 5, BLACK);
    assert_eq!(canvas.render(), cell(1, 1, RED, BLACK));
}

#[test]
fn written_pixel_reads_back_at_each_coordinate() {
    for z in 0..10 {
        for y in 0..4 {
            for x in 0..3 {
                let mut canvas = settled(3, 2, BLACK);
                canvas.set_pixel(x, y, z, RED);
                let (top, bottom) = if y % 2 == 0 { (RED, BLACK) } else { (BLACK, RED) };
                assert_eq!(canvas.render(), cell(y / 2 + 1, x + 1, top, bottom));
            }
        }
    }
}

#[test]
fn out_of_bounds_writes_change_nothing() {
    let mut canvas = settled(2, 2, BLACK);
    canvas.set_pixel(2, 0, 0, RED);
    canvas.set_pixel(0, 4, 0, RED);
    canvas.set_pixel(0, 0, 10, RED);
    canvas.set_pixel(usize::MAX, usize::MAX, usize::MAX, RED);
    assert_eq!(canvas.render(), "");
}

#[test]
fn zero_sized_canvas_renders_nothing() {
    let mut wide = Canvas::new(5, 0, BLACK);
    wide.set_pixel(0, 0, 0, RED);
    assert_eq!(wide.render(), "");
    let mut tall = Canvas::new(0, 5, BLACK);
    tall.set_pixel(0, 0, 0, RED);
    tall.clear();
    assert_eq!(tall.render(), "");
}

#[test]
fn same_color_written_in_two_frames_is_not_redrawn() {
    let mut canvas = settled(2, 1, BLACK);
    canvas.clear();
    canvas.set_pixel(1, 0, 2, RED);
    assert_eq!(canvas.render(), cell(1, 2, RED, BLACK));
    canvas.clear();
    canvas.set_pixel(1, 0, 2, RED);
    assert_eq!(canvas.render(), "");
}

#[test]
fn same_resolved_color_from_another_layer_is_not_redrawn() {
    let mut canvas = settled(1, 1, BLACK);
    canvas.set_pixel(0, 0, 1, RED);
    assert_eq!(canvas.render(), cell(1, 1, RED, BLACK));
    canvas.clear();
    canvas.set_pixel(0, 0, 6, RED);
    assert_eq!(canvas.render(), "");
}

#[test]
fn cells_are_emitted_in_row_major_order_with_multi_digit_positions() {
    let mut canvas = settled(12, 11, BLACK);
    canvas.set_pixel(11, 21, 0, BLUE);
    canvas.set_pixel(0, 20, 0, RED);
    canvas.set_pixel(9, 0, 0, GREEN);
    let expected = cell(1, 10, GREEN, BLACK) + &cell(11, 1, RED, BLACK) + &cell(11, 12, BLACK, BLUE);
    assert_eq!(canvas.render(), expected);
}

#[test]
fn wire_format_is_exact() {
    let mut canvas = settled(1, 1, BLACK);
    canvas.set_pixel(0, 0, 0, Color { r: 7, g: 80, b: 255 });
    canvas.set_pixel(0, 1, 0, Color { r: 100, g: 9, b: 10 });
    assert_eq!(
        canvas.render(),
        "\u{1b}[1;1H\u{1b}[48;2;7;80;255m\u{1b}[38;2;100;9;10m\u{2584}"
    );
}

#[test]
fn fields_keep_dimensions_and_default_color() {
    let gray = Color { r: 1, g: 2, b: 3 };
    let canvas = Canvas::new(7, 4, gray);
    assert_eq!(canvas.width, 7);
    assert_eq!(canvas.height, 4);
    assert_eq!(canvas.default_color, gray);
}

#[test]
fn color_complement_is_channel_wise() {
    let c = Color { r: 0, g: 100, b: 255 };
    assert_eq!(c.complement(), Color { r: 255, g: 155, b: 0 });
}

#[test]
fn value_types_compare_by_fields() {
    let a = CompositedCell { top_color: RED, bottom_color: GREEN };
    let b = CompositedCell { top_color: RED, bottom_color: GREEN };
    let c = CompositedCell { top_color: GREEN, bottom_color: RED };
    assert_eq!(a, b);
    assert_ne!(a, c);
    assert_eq!(TerminalPixel { color: BLUE }, TerminalPixel { color: BLUE });
    assert_ne!(TerminalPixel { color: BLUE }, TerminalPixel { color: RED });
}
