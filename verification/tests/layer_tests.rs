use compositor::color::Color;
use compositor::geometry::{FramebufferGeometry, PixelFormat};
use compositor::graphics::Painter;
use compositor::layer::{Layer, LayerController};

const RED: Color = Color { r: 255, g: 0, b: 0, a: 255 };
const BLUE: Color = Color { r: 0, g: 0, b: 255, a: 255 };
const GREEN: Color = Color { r: 0, g: 255, b: 0, a: 255 };

fn painter(width: usize, height: usize) -> Painter {
    let info = FramebufferGeometry {
        width,
        height,
        stride: width,
        bytes_per_pixel: 4,
        pixel_format: PixelFormat::Rgb,
    };
    Painter::new(vec![0u8; width * height * 4], info)
}

fn pixel_rgb(p: &Painter, stride: usize, x: usize, y: usize) -> (u8, u8, u8) {
    let base = (y * stride + x) * 4;
    (p.get_byte(base), p.get_byte(base + 1), p.get_byte(base + 2))
}

fn filled_layer(w: u32, h: u32, x: u32, y: u32, z: u32, color: Color) -> Layer {
    let mut l = Layer::new(w, h, x, y, z);
    l.draw_rect(0, 0, w, h, color);
    l
}

#[test]
fn layer_draw_pixel_clips_and_honors_transparency() {
    let mut l = Layer::new(4, 4, 0, 0, 0);
    l.draw_pixel(1, 1, RED);
    l.draw_pixel(4, 0, BLUE);
    l.draw_pixel(0, 4, BLUE);
    l.draw_pixel(2, 2, Color { r: 9, g: 9, b: 9, a: 0 });
    let pixels = l.get_framebuffer();
    assert_eq!(pixels[1 * 4 + 1], RED);
    assert_eq!(pixels[2 * 4 + 2].a, 0);
    for (i, c) in pixels.iter().enumerate() {
        if i != 5 {
            assert_eq!(c.a, 0);
        }
    }
}

#[test]
fn layer_draw_bitmap_checks_size() {
    let mut l = Layer::new(4, 4, 0, 0, 0);
    let r = l.draw_bitmap(0, 0, 3, 3, &vec![RED; 8]);
    assert!(r.is_err());
    let r = l.draw_bitmap(1, 1, 2, 2, &vec![RED; 4]);
    assert!(r.is_ok());
    assert_eq!(l.get_framebuffer()[1 * 4 + 1], RED);
    assert_eq!(l.get_framebuffer()[0].a, 0);
}

#[test]
fn register_keeps_sorted_order_and_slots() {
    let mut lc = LayerController::new();
    // identify layers by their width
    lc.add_layer(Layer::new(10, 1, 0, 0, 5));
    lc.add_layer(Layer::new(11, 1, 0, 0, 1));
    lc.add_layer(Layer::new(12, 1, 0, 0, 3));
    lc.add_layer(Layer::new(13, 1, 0, 0, 3));
    let widths: Vec<u32> = (0..lc.get_layer_count()).map(|i| lc.get_layer(i).get_width()).collect();
    let zs: Vec<u32> = (0..lc.get_layer_count()).map(|i| lc.get_layer(i).get_z_index()).collect();
    assert_eq!(zs, vec![1, 3, 3, 5]);
    // equal keys keep insertion order: 12 before 13
    assert_eq!(widths, vec![11, 12, 13, 10]);
    for i in 0..lc.get_layer_count() {
        assert_eq!(lc.get_layer(i).get_slot() as usize, i);
    }
}

#[test]
fn reregistering_an_equal_key_lands_after_the_run() {
    let mut lc = LayerController::new();
    lc.add_layer(Layer::new(20, 1, 0, 0, 3));
    lc.add_layer(Layer::new(21, 1, 0, 0, 3));
    lc.add_layer(Layer::new(22, 1, 0, 0, 7));
    // remove the first member of the equal-z run and put it back
    let taken = lc.remove_layer(0);
    assert_eq!(taken.get_width(), 20);
    let slot = lc.add_layer(taken);
    // it must land at the end of the z == 3 run, not at its start
    assert_eq!(slot, 1);
    let widths: Vec<u32> = (0..lc.get_layer_count()).map(|i| lc.get_layer(i).get_width()).collect();
    assert_eq!(widths, vec![21, 20, 22]);
    for i in 0..lc.get_layer_count() {
        assert_eq!(lc.get_layer(i).get_slot() as usize, i);
    }
}

#[test]
fn set_layer_z_index_restacks_and_fixes_slots() {
    let mut lc = LayerController::new();
    lc.add_layer(Layer::new(30, 1, 0, 0, 1));
    lc.add_layer(Layer::new(31, 1, 0, 0, 2));
    lc.add_layer(Layer::new(32, 1, 0, 0, 3));
    let slot = lc.set_layer_z_index(0, 2);
    // the moved layer gets the new key and lands after the existing 2
    assert_eq!(slot, 1);
    let widths: Vec<u32> = (0..lc.get_layer_count()).map(|i| lc.get_layer(i).get_width()).collect();
    assert_eq!(widths, vec![31, 30, 32]);
    let zs: Vec<u32> = (0..lc.get_layer_count()).map(|i| lc.get_layer(i).get_z_index()).collect();
    assert_eq!(zs, vec![2, 2, 3]);
    for i in 0..lc.get_layer_count() {
        assert_eq!(lc.get_layer(i).get_slot() as usize, i);
    }
}

#[test]
fn render_full_end_to_end_scenario() {
    let mut p = painter(100, 100);
    let mut lc = LayerController::new();
    lc.add_layer(filled_layer(100, 100, 0, 0, 0, RED));
    lc.add_layer(filled_layer(20, 20, 10, 10, 1, BLUE));
    lc.render(&mut p);
    assert_eq!(pixel_rgb(&p, 100, 15, 15), (0, 0, 255));
    assert_eq!(pixel_rgb(&p, 100, 50, 50), (255, 0, 0));
}

#[test]
fn render_partial_overlap_shows_only_the_topmost_layer() {
    let mut full = painter(40, 40);
    let mut part = painter(40, 40);
    let mut lc = LayerController::new();
    lc.add_layer(filled_layer(30, 30, 0, 0, 1, RED));
    lc.add_layer(filled_layer(20, 20, 5, 5, 2, BLUE));
    lc.render(&mut full);
    lc.render_partial(&mut part, 4, 4, 12, 12);
    for y in 4..16usize {
        for x in 4..16usize {
            assert_eq!(pixel_rgb(&part, 40, x, y), pixel_rgb(&full, 40, x, y));
        }
    }
    assert_eq!(pixel_rgb(&part, 40, 10, 10), (0, 0, 255));
    // outside the region the partial render touched nothing
    assert_eq!(pixel_rgb(&part, 40, 20, 20), (0, 0, 0));
}

#[test]
fn render_partial_ignores_layers_outside_the_region() {
    let mut p = painter(40, 40);
    let mut lc = LayerController::new();
    lc.add_layer(filled_layer(5, 5, 30, 30, 1, GREEN));
    lc.render_partial(&mut p, 0, 0, 10, 10);
    for y in 0..10usize {
        for x in 0..10usize {
            assert_eq!(pixel_rgb(&p, 40, x, y), (0, 0, 0));
        }
    }
}

#[test]
fn hidden_layers_contribute_to_neither_render_path() {
    let mut full = painter(20, 20);
    let mut part = painter(20, 20);
    let mut lc = LayerController::new();
    lc.add_layer(filled_layer(20, 20, 0, 0, 0, RED));
    let mut top = filled_layer(10, 10, 0, 0, 1, BLUE);
    top.set_hidden(true);
    lc.add_layer(top);
    lc.render(&mut full);
    lc.render_partial(&mut part, 0, 0, 20, 20);
    for y in 0..20usize {
        for x in 0..20usize {
            assert_eq!(pixel_rgb(&full, 20, x, y), (255, 0, 0));
            assert_eq!(pixel_rgb(&part, 20, x, y), (255, 0, 0));
        }
    }
}

#[test]
fn render_partial_early_exit_matches_full_render() {
    // the top layer covers the whole region, so the occlusion counter
    // fills up and the walk stops before the bottom layer
    let mut full = painter(30, 30);
    let mut part = painter(30, 30);
    let mut lc = LayerController::new();
    lc.add_layer(filled_layer(30, 30, 0, 0, 0, RED));
    lc.add_layer(filled_layer(30, 30, 0, 0, 5, GREEN));
    lc.render(&mut full);
    lc.render_partial(&mut part, 2, 2, 6, 6);
    for y in 2..8usize {
        for x in 2..8usize {
            assert_eq!(pixel_rgb(&part, 30, x, y), pixel_rgb(&full, 30, x, y));
            assert_eq!(pixel_rgb(&part, 30, x, y), (0, 255, 0));
        }
    }
}

#[test]
fn transparent_layer_pixels_let_lower_layers_through() {
    let mut p = painter(10, 10);
    let mut lc = LayerController::new();
    lc.add_layer(filled_layer(10, 10, 0, 0, 0, RED));
    // the top layer leaves (3, 3) untouched, so it stays transparent
    let mut top = Layer::new(10, 10, 0, 0, 1);
    for y in 0..10u32 {
        for x in 0..10u32 {
            if !(x == 3 && y == 3) {
                top.draw_pixel(x, y, BLUE);
            }
        }
    }
    lc.add_layer(top);
    lc.render(&mut p);
    assert_eq!(pixel_rgb(&p, 10, 3, 3), (255, 0, 0));
    assert_eq!(pixel_rgb(&p, 10, 4, 3), (0, 0, 255));
}

#[test]
fn set_layer_pos_moves_a_registered_layer() {
    let mut p = painter(20, 20);
    let mut lc = LayerController::new();
    let slot = lc.add_layer(filled_layer(2, 2, 0, 0, 0, GREEN));
    lc.set_layer_pos(slot, 9, 9);
    lc.render(&mut p);
    assert_eq!(pixel_rgb(&p, 20, 9, 9), (0, 255, 0));
    assert_eq!(pixel_rgb(&p, 20, 0, 0), (0, 0, 0));
}

#[test]
fn draw_window_paints_chrome_and_content() {
    let mut l = Layer::new(60, 40, 0, 0, 0);
    l.draw_window("demo");
    let border = Color { r: 0x55, g: 0x55, b: 0x55, a: 0xff };
    let background = Color { r: 0x20, g: 0x20, b: 0x20, a: 0xff };
    let pixels = l.get_framebuffer();
    assert_eq!(pixels[0], border);  // title bar
    assert_eq!(pixels[24 * 60 + 30], border);  // bottom of title bar
    assert_eq!(pixels[30 * 60 + 0], border);  // left border
    assert_eq!(pixels[30 * 60 + 59], border);  // right border
    assert_eq!(pixels[39 * 60 + 30], border);  // bottom border
    assert_eq!(pixels[30 * 60 + 30], background);  // content
}
