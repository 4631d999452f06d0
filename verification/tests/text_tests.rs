use compositor::color::Color;
use compositor::geometry::{FramebufferGeometry, PixelFormat};
use compositor::graphics::{draw_char, draw_str, get_char_width, Painter};
use compositor::log::{backspace, logger_init, set_color, set_indent};
use compositor::unifont::{get_glyph, Font, Glyph};

const WHITE: Color = Color { r: 255, g: 255, b: 255, a: 255 };

fn painter(width: usize, height: usize) -> Painter {
    let info = FramebufferGeometry {
        width,
        height,
        stride: width,
        bytes_per_pixel: 4,
        pixel_format: PixelFormat::Rgb,
    };
    Painter::new(vec![0u8; width * height * 4], info)
}

fn red_channel(p: &Painter, stride: usize, x: usize, y: usize) -> u8 {
    p.get_byte((y * stride + x) * 4)
}

// a half-width glyph whose leftmost column is set on every row
fn column_glyph() -> Glyph {
    Glyph::HalfWidth([0x80; 16])
}

// a half-width glyph whose second column is set on every row
fn second_column_glyph() -> Glyph {
    Glyph::HalfWidth([0x40; 16])
}

fn small_font() -> Font {
    // 'A' and 'B'
    Font::new(vec![(65, 67)], vec![column_glyph(), second_column_glyph()]).expect("table fits")
}

#[test]
fn glyph_pixels_follow_the_row_bits() {
    let g = column_glyph();
    assert!(g.get_pixel(0, 0));
    assert!(g.get_pixel(0, 15));
    assert!(!g.get_pixel(1, 0));
    assert!(!g.get_pixel(0, 16));
    assert!(!g.get_pixel(8, 0));
    assert_eq!(g.get_width(), 8);
    let wide = Glyph::FullWidth([0x8000; 16]);
    assert!(wide.get_pixel(0, 3));
    assert!(!wide.get_pixel(1, 3));
    assert_eq!(wide.get_width(), 16);
}

#[test]
fn font_validation_rejects_inconsistent_tables() {
    assert!(Font::new(vec![(65, 64)], vec![]).is_none());
    assert!(Font::new(vec![(65, 67)], vec![column_glyph()]).is_none());
    assert!(Font::new(vec![(65, 66)], vec![column_glyph()]).is_some());
}

#[test]
fn get_glyph_scans_ranges_in_order() {
    let font = Font::new(
        vec![(48, 50), (65, 67)],
        vec![column_glyph(), column_glyph(), column_glyph(), second_column_glyph()],
    )
    .expect("table fits");
    assert!(get_glyph(&font, '0').is_some());
    assert!(get_glyph(&font, 'A').is_some());
    assert!(get_glyph(&font, 'Z').is_none());
    // 'B' is the second glyph of the second range
    let b = get_glyph(&font, 'B').expect("covered");
    assert!(b.get_pixel(1, 0));
    assert!(!b.get_pixel(0, 0));
}

#[test]
fn char_width_is_the_glyph_advance_or_zero() {
    let font = small_font();
    assert_eq!(get_char_width(&font, 'A'), 8);
    assert_eq!(get_char_width(&font, 'z'), 0);
}

#[test]
fn draw_char_blits_set_bits_and_returns_the_advance() {
    let mut p = painter(32, 24);
    let font = small_font();
    let advance = draw_char(&mut p, &font, 2, 3, 'A', WHITE);
    assert_eq!(advance, 8);
    for row in 0..16usize {
        assert_eq!(red_channel(&p, 32, 2, 3 + row), 255);
        assert_eq!(red_channel(&p, 32, 3, 3 + row), 0);
    }
    assert_eq!(red_channel(&p, 32, 2, 2), 0);
    assert_eq!(red_channel(&p, 32, 2, 19), 0);
    // an uncovered character draws nothing and advances nothing
    let advance = draw_char(&mut p, &font, 20, 0, 'z', WHITE);
    assert_eq!(advance, 0);
    assert_eq!(red_channel(&p, 32, 20, 0), 0);
}

#[test]
fn draw_str_advances_left_to_right() {
    let mut p = painter(40, 20);
    let font = small_font();
    draw_str(&mut p, &font, 4, 1, "AB", WHITE);
    // 'A' lights its first column at x = 4
    assert_eq!(red_channel(&p, 40, 4, 1), 255);
    // 'B' starts after A's 8-column advance and lights its second column
    assert_eq!(red_channel(&p, 40, 13, 1), 255);
    assert_eq!(red_channel(&p, 40, 12, 1), 0);
}

#[test]
fn logger_backspace_clears_one_cell_and_stops_at_the_margin() {
    let mut p = painter(40, 30);
    let font = small_font();
    let mut logger = logger_init(16, 2);
    set_color(&mut logger, WHITE);
    logger.print(&mut p, &font, "A");
    // the glyph was drawn at the margin
    assert_eq!(red_channel(&p, 40, 2, 2), 255);
    backspace(&mut logger, &mut p);
    // the cell is cleared with the desktop background
    assert_eq!(red_channel(&p, 40, 2, 2), 0x20);
    // at the margin a second backspace is a no-op
    let before: Vec<u8> = (0..40 * 30 * 4).map(|i| p.get_byte(i)).collect();
    backspace(&mut logger, &mut p);
    let after: Vec<u8> = (0..40 * 30 * 4).map(|i| p.get_byte(i)).collect();
    assert_eq!(before, after);
}

#[test]
fn logger_print_wraps_at_the_right_margin() {
    let mut p = painter(24, 64);
    let font = small_font();
    let mut logger = logger_init(16, 2);
    set_color(&mut logger, WHITE);
    // two glyphs fit the 20-column text area; the third wraps and the
    // wrapping line feed clears the next line's strip first
    logger.print(&mut p, &font, "AAA");
    assert_eq!(red_channel(&p, 24, 2, 2), 255);
    assert_eq!(red_channel(&p, 24, 10, 2), 255);
    // the wrapped glyph lands at the margin of the next line
    assert_eq!(red_channel(&p, 24, 2, 18), 255);
}

#[test]
fn logger_indent_moves_line_starts() {
    let mut p = painter(60, 64);
    let font = small_font();
    let mut logger = logger_init(16, 2);
    set_color(&mut logger, WHITE);
    set_indent(&mut logger, 1);
    logger.print(&mut p, &font, "\nA");
    // after the line feed the pen sits at margin + 8 * indent
    assert_eq!(red_channel(&p, 60, 10, 18), 255);
}
