use compositor::color::Color;
use compositor::geometry::{FramebufferGeometry, PixelFormat};
use compositor::graphics::{
    draw_bitmap, draw_line, draw_pixel, draw_rect, get_height, get_width, move_all_up, DrawError,
    Painter,
};

fn geometry(width: usize, height: usize, stride: usize, format: PixelFormat) -> FramebufferGeometry {
    FramebufferGeometry { width, height, stride, bytes_per_pixel: 4, pixel_format: format }
}

fn painter(width: usize, height: usize, stride: usize, format: PixelFormat) -> Painter {
    let info = geometry(width, height, stride, format);
    let buffer = vec![0u8; stride * height * 4];
    Painter::new(buffer, info)
}

fn bytes_of(p: &Painter, len: usize) -> Vec<u8> {
    let mut out = Vec::new();
    let mut i = 0;
    while i < len {
        out.push(p.get_byte(i));
        i += 1;
    }
    out
}

fn offset(stride: usize, x: usize, y: usize) -> usize {
    (y * stride + x) * 4
}

#[test]
fn draw_pixel_reads_back_rgb_order() {
    let mut p = painter(16, 16, 20, PixelFormat::Rgb);
    p.draw_pixel(3, 2, Color { r: 10, g: 20, b: 30, a: 255 });
    let base = offset(20, 3, 2);
    assert_eq!(p.get_byte(base), 10);
    assert_eq!(p.get_byte(base + 1), 20);
    assert_eq!(p.get_byte(base + 2), 30);
}

#[test]
fn draw_pixel_reads_back_bgr_order() {
    let mut p = painter(16, 16, 20, PixelFormat::Bgr);
    p.draw_pixel(3, 2, Color { r: 10, g: 20, b: 30, a: 255 });
    let base = offset(20, 3, 2);
    assert_eq!(p.get_byte(base), 30);
    assert_eq!(p.get_byte(base + 1), 20);
    assert_eq!(p.get_byte(base + 2), 10);
}

#[test]
fn draw_pixel_out_of_bounds_is_no_op() {
    let mut p = painter(16, 16, 20, PixelFormat::Rgb);
    let len = 20 * 16 * 4;
    let before = bytes_of(&p, len);
    p.draw_pixel(16, 0, Color { r: 1, g: 2, b: 3, a: 255 });
    p.draw_pixel(0, 16, Color { r: 1, g: 2, b: 3, a: 255 });
    p.draw_pixel(u32::MAX, u32::MAX, Color { r: 1, g: 2, b: 3, a: 255 });
    assert_eq!(bytes_of(&p, len), before);
}

#[test]
fn draw_pixel_transparent_is_no_op() {
    let mut p = painter(16, 16, 20, PixelFormat::Rgb);
    let len = 20 * 16 * 4;
    let before = bytes_of(&p, len);
    p.draw_pixel(3, 3, Color { r: 9, g: 9, b: 9, a: 0 });
    assert_eq!(bytes_of(&p, len), before);
}

#[test]
fn draw_rect_writes_exactly_the_clamped_rectangle() {
    let mut p = painter(10, 8, 12, PixelFormat::Rgb);
    // overflows past both edges; must be clamped to [6,10) x [5,8)
    p.draw_rect(6, 5, u32::MAX, u32::MAX, Color { r: 7, g: 8, b: 9, a: 255 });
    for y in 0..8usize {
        for x in 0..12usize {
            let base = offset(12, x, y);
            let painted = x >= 6 && x < 10 && y >= 5;
            if painted {
                assert_eq!(p.get_byte(base), 7);
                assert_eq!(p.get_byte(base + 1), 8);
                assert_eq!(p.get_byte(base + 2), 9);
            } else {
                assert_eq!(p.get_byte(base), 0);
                assert_eq!(p.get_byte(base + 1), 0);
                assert_eq!(p.get_byte(base + 2), 0);
            }
        }
    }
}

#[test]
fn draw_rect_degenerate_start_is_no_op() {
    let mut p = painter(10, 8, 12, PixelFormat::Rgb);
    let len = 12 * 8 * 4;
    let before = bytes_of(&p, len);
    p.draw_rect(10, 0, 4, 4, Color { r: 1, g: 1, b: 1, a: 255 });
    p.draw_rect(0, 8, 4, 4, Color { r: 1, g: 1, b: 1, a: 255 });
    assert_eq!(bytes_of(&p, len), before);
}

#[test]
fn move_all_up_shifts_rows_and_keeps_bottom_rows() {
    let mut p = painter(4, 6, 4, PixelFormat::Rgb);
    // mark every row with its own value
    for y in 0..6u32 {
        p.draw_rect(0, y, 4, 1, Color { r: y as u8 + 1, g: 0, b: 0, a: 255 });
    }
    move_all_up(&mut p, 2);
    // rows 0..4 now hold the old rows 2..6
    for y in 0..4usize {
        assert_eq!(p.get_byte(offset(4, 0, y)), y as u8 + 3);
    }
    // rows 4..6 keep their prior content, clearing is the caller's job
    assert_eq!(p.get_byte(offset(4, 0, 4)), 5);
    assert_eq!(p.get_byte(offset(4, 0, 5)), 6);
}

#[test]
fn draw_bitmap_size_mismatch_is_reported_and_draws_nothing() {
    let mut p = painter(8, 8, 8, PixelFormat::Rgb);
    let len = 8 * 8 * 4;
    let before = bytes_of(&p, len);
    let pixels = vec![Color { r: 1, g: 2, b: 3, a: 255 }; 5];
    let r = draw_bitmap(&mut p, 0, 0, 2, 2, &pixels);
    assert_eq!(r, Err(DrawError::BitmapSizeMismatch));
    assert_eq!(bytes_of(&p, len), before);
}

#[test]
fn draw_bitmap_honors_transparency_and_clipping() {
    let mut p = painter(8, 8, 8, PixelFormat::Rgb);
    let pixels = vec![
        Color { r: 1, g: 0, b: 0, a: 255 },
        Color { r: 2, g: 0, b: 0, a: 0 },
        Color { r: 3, g: 0, b: 0, a: 255 },
        Color { r: 4, g: 0, b: 0, a: 255 },
    ];
    let r = draw_bitmap(&mut p, 7, 7, 2, 2, &pixels);
    assert_eq!(r, Ok(()));
    // only the top-left source pixel lands on screen; the transparent one
    // and the two clipped ones do not
    assert_eq!(p.get_byte(offset(8, 7, 7)), 1);
}

#[test]
fn bresenham_line_is_monotonic_with_unit_steps() {
    let mut p = painter(16, 16, 16, PixelFormat::Rgb);
    draw_line(&mut p, 0, 0, 10, 4, Color { r: 255, g: 255, b: 255, a: 255 });
    let mut points = Vec::new();
    let mut lit = 0;
    for x in 0..16usize {
        let mut row = None;
        for y in 0..16usize {
            if p.get_byte(offset(16, x, y)) == 255 {
                lit += 1;
                assert!(row.is_none(), "one pixel per column");
                row = Some(y);
            }
        }
        if x <= 10 {
            points.push(row.expect("column on the line must be lit"));
        } else {
            assert!(row.is_none());
        }
    }
    assert_eq!(lit, 11);
    assert_eq!(points[0], 0);
    assert_eq!(points[10], 4);
    for i in 1..points.len() {
        let step = points[i] - points[i - 1];
        assert!(step == 0 || step == 1, "y non-decreasing by at most one");
    }
}

#[test]
fn vertical_and_horizontal_lines_cover_their_segment() {
    let mut p = painter(8, 8, 8, PixelFormat::Rgb);
    draw_line(&mut p, 2, 6, 2, 3, Color { r: 9, g: 0, b: 0, a: 255 });
    for y in 3..7usize {
        assert_eq!(p.get_byte(offset(8, 2, y)), 9);
    }
    assert_eq!(p.get_byte(offset(8, 2, 2)), 0);
    assert_eq!(p.get_byte(offset(8, 2, 7)), 0);
    draw_line(&mut p, 6, 1, 3, 1, Color { r: 8, g: 0, b: 0, a: 255 });
    for x in 3..7usize {
        assert_eq!(p.get_byte(offset(8, x, 1)), 8);
    }
    assert_eq!(p.get_byte(offset(8, 2, 1)), 0);
    assert_eq!(p.get_byte(offset(8, 7, 1)), 0);
}

#[test]
fn getters_report_the_boot_geometry() {
    let p = painter(31, 17, 40, PixelFormat::Bgr);
    assert_eq!(get_width(&p), 31);
    assert_eq!(get_height(&p), 17);
    assert_eq!(p.get_width(), 31);
    assert_eq!(p.get_height(), 17);
}

#[test]
fn free_draw_functions_delegate() {
    let mut p = painter(8, 8, 8, PixelFormat::Rgb);
    draw_pixel(&mut p, 1, 1, Color { r: 5, g: 6, b: 7, a: 255 });
    assert_eq!(p.get_byte(offset(8, 1, 1)), 5);
    draw_rect(&mut p, 4, 4, 2, 2, Color { r: 9, g: 9, b: 9, a: 255 });
    assert_eq!(p.get_byte(offset(8, 5, 5)), 9);
}

#[test]
fn color_constructors_unpack_hex() {
    let c = Color::new(0xfa4b4c, 255);
    assert_eq!((c.r, c.g, c.b, c.a), (0xfa, 0x4b, 0x4c, 255));
    let d = Color::new_rgba(1, 2, 3, 0);
    assert_eq!((d.r, d.g, d.b, d.a), (1, 2, 3, 0));
    assert_eq!(compositor::color::red().r, 0xfa);
    assert_eq!(compositor::color::transparent().a, 0);
    assert_eq!(compositor::color::desktop_background().g, 0x20);
}
