use vstd::prelude::*;

use crate::color::Color;

verus! {

/// Order of a pixel's three color channel bytes in framebuffer memory.
#[derive(Clone, Copy, PartialEq, Eq, Structural, Debug)]
pub enum PixelFormat {
    Rgb,
    Bgr,
}

/// Geometry and pixel-format descriptor of the raw framebuffer, supplied
/// once by the platform at boot and never mutated afterwards.
///
/// `stride` is the number of pixels per row in memory and may exceed
/// `width` because of row padding; all row arithmetic uses `stride`,
/// never `width`.
#[derive(Clone, Copy, PartialEq, Eq, Structural, Debug)]
pub struct FramebufferGeometry {
    pub width: usize,
    pub height: usize,
    pub stride: usize,
    pub bytes_per_pixel: usize,
    pub pixel_format: PixelFormat,
}

impl FramebufferGeometry {
    /// A geometry the painter supports: at least three bytes per pixel,
    /// rows no wider than the stride, and dimensions addressable by the
    /// `u32` coordinates of the drawing calls.
    pub open spec fn wf(self) -> bool {
        &&& self.width <= self.stride
        &&& 3 <= self.bytes_per_pixel
        &&& self.width <= u32::MAX
        &&& self.height <= u32::MAX
    }

    /// Number of bytes of a framebuffer with this geometry.
    pub open spec fn total_bytes(self) -> int {
        self.stride * self.height * self.bytes_per_pixel
    }
}

/// Byte offset of channel byte `k` of the pixel at `(x, y)`.
pub open spec fn byte_index(g: FramebufferGeometry, x: int, y: int, k: int) -> int {
    (y * g.stride + x) * g.bytes_per_pixel + k
}

/// Value of channel byte `k` (0, 1 or 2) of color `c` under format `fmt`.
pub open spec fn channel_value(fmt: PixelFormat, c: Color, k: int) -> u8 {
    match fmt {
        PixelFormat::Rgb => if k == 0 { c.r } else if k == 1 { c.g } else { c.b },
        PixelFormat::Bgr => if k == 0 { c.b } else if k == 1 { c.g } else { c.r },
    }
}

/// In-range pixel coordinates and channel index. Every byte of a
/// framebuffer with geometry `g` is addressed by exactly one such triple.
pub open spec fn valid_triple(g: FramebufferGeometry, x: int, y: int, k: int) -> bool {
    &&& 0 <= x < g.stride
    &&& 0 <= y < g.height
    &&& 0 <= k < g.bytes_per_pixel
}

/// Framebuffer contents after overwriting the three channel bytes of the
/// pixel at `(x, y)` with the channels of `c`.
pub open spec fn with_pixel(
    fb: Seq<u8>,
    g: FramebufferGeometry,
    x: int,
    y: int,
    c: Color,
) -> Seq<u8> {
    fb.update(byte_index(g, x, y, 0), channel_value(g.pixel_format, c, 0)).update(
        byte_index(g, x, y, 1),
        channel_value(g.pixel_format, c, 1),
    ).update(byte_index(g, x, y, 2), channel_value(g.pixel_format, c, 2))
}

/// Number of bytes of one framebuffer row, padding included.
pub open spec fn row_bytes(g: FramebufferGeometry) -> int {
    g.stride * g.bytes_per_pixel
}

/// Row-oriented reformulations of the byte layout: the buffer is `height`
/// rows of `row_bytes` bytes each, and a pixel's offset is its row offset
/// plus its offset within the row.
pub proof fn lemma_row_layout(g: FramebufferGeometry)
    ensures
        g.total_bytes() == g.height * row_bytes(g),
        forall|x: int, y: int, k: int| #[trigger] byte_index(g, x, y, k) == y * row_bytes(g) + x
            * g.bytes_per_pixel + k,
{
    let s = g.stride as int;
    let h = g.height as int;
    let b = g.bytes_per_pixel as int;
    assert(s * h * b == h * (s * b)) by (nonlinear_arith);
    assert forall|x: int, y: int, k: int| #[trigger] byte_index(g, x, y, k) == y * row_bytes(g) + x
        * b + k by {
        assert((y * s + x) * b == y * (s * b) + x * b) by (nonlinear_arith);
    }
}

/// Scrolling by `rows` rows in terms of pixel triples: a pixel above the
/// moved region's end sits below the moved byte count, and shifting it by
/// `rows` rows moves its offset by exactly the moved distance.
pub proof fn lemma_row_shift(g: FramebufferGeometry, rows: int)
    requires
        0 <= rows <= g.height,
    ensures
        forall|x: int, y: int, k: int|
            #[trigger] valid_triple(g, x, y, k) && y < g.height - rows ==> byte_index(g, x, y, k)
                < (g.height - rows) * row_bytes(g) && byte_index(g, x, y, k) + rows * row_bytes(g)
                == byte_index(g, x, y + rows, k),
        forall|x: int, y: int, k: int|
            #[trigger] valid_triple(g, x, y, k) && y >= g.height - rows ==> byte_index(g, x, y, k)
                >= (g.height - rows) * row_bytes(g),
{
    lemma_row_layout(g);
    let s = g.stride as int;
    let b = g.bytes_per_pixel as int;
    let rb = s * b;
    assert forall|x: int, y: int, k: int| #[trigger] valid_triple(g, x, y, k) && y < g.height
        - rows implies byte_index(g, x, y, k) < (g.height - rows) * rb && byte_index(g, x, y, k)
        + rows * rb == byte_index(g, x, y + rows, k) by {
        assert(y * rb + x * b + k < (y + 1) * rb && (y + 1) * rb <= (g.height - rows) * rb && y * rb
            + rows * rb == (y + rows) * rb) by (nonlinear_arith)
            requires
                0 <= x < s,
                0 <= k < b,
                0 <= y,
                y + 1 <= g.height - rows,
                rb == s * b,
        ;
    }
    assert forall|x: int, y: int, k: int| #[trigger] valid_triple(g, x, y, k) && y >= g.height
        - rows implies byte_index(g, x, y, k) >= (g.height - rows) * rb by {
        assert(y * rb + x * b + k >= y * rb && y * rb >= (g.height - rows) * rb)
            by (nonlinear_arith)
            requires
                0 <= x,
                0 <= k,
                0 <= b,
                y >= g.height - rows,
                0 <= rb,
        ;
    }
}

/// The byte offset of an in-range triple lies inside the framebuffer, and
/// so do the intermediate products that compute it.
pub proof fn lemma_byte_index_bounds(g: FramebufferGeometry, x: int, y: int, k: int)
    requires
        valid_triple(g, x, y, k),
    ensures
        0 <= y * g.stride + x < g.stride * g.height,
        g.stride * g.height <= g.total_bytes(),
        0 <= byte_index(g, x, y, k) < g.total_bytes(),
{
    let s = g.stride as int;
    let h = g.height as int;
    let b = g.bytes_per_pixel as int;
    assert(0 <= y * s + x < s * h) by (nonlinear_arith)
        requires
            0 <= x < s,
            0 <= y < h,
    ;
    assert(s * h <= s * h * b) by (nonlinear_arith)
        requires
            1 <= b,
            0 <= s * h,
    ;
    assert(0 <= (y * s + x) * b + k < s * h * b) by (nonlinear_arith)
        requires
            0 <= k < b,
            0 <= y * s + x < s * h,
    ;
}

/// Distinct in-range triples address distinct framebuffer bytes.
pub proof fn lemma_byte_index_injective(
    g: FramebufferGeometry,
    x1: int,
    y1: int,
    k1: int,
    x2: int,
    y2: int,
    k2: int,
)
    requires
        valid_triple(g, x1, y1, k1),
        valid_triple(g, x2, y2, k2),
        byte_index(g, x1, y1, k1) == byte_index(g, x2, y2, k2),
    ensures
        x1 == x2,
        y1 == y2,
        k1 == k2,
{
    let s = g.stride as int;
    let b = g.bytes_per_pixel as int;
    let p1 = y1 * s + x1;
    let p2 = y2 * s + x2;
    assert(p1 == p2 && k1 == k2) by (nonlinear_arith)
        requires
            p1 * b + k1 == p2 * b + k2,
            0 <= k1 < b,
            0 <= k2 < b,
    ;
    assert(y1 == y2 && x1 == x2) by (nonlinear_arith)
        requires
            y1 * s + x1 == y2 * s + x2,
            0 <= x1 < s,
            0 <= x2 < s,
    ;
}

/// Overwriting one pixel changes exactly that pixel's three channel bytes
/// and leaves every other byte unchanged.
pub proof fn lemma_with_pixel_bytes(
    fb: Seq<u8>,
    g: FramebufferGeometry,
    x: int,
    y: int,
    c: Color,
)
    requires
        3 <= g.bytes_per_pixel,
        fb.len() == g.total_bytes(),
        0 <= x < g.stride,
        0 <= y < g.height,
    ensures
        with_pixel(fb, g, x, y, c).len() == fb.len(),
        forall|x2: int, y2: int, k2: int|
            #[trigger] valid_triple(g, x2, y2, k2) ==> with_pixel(fb, g, x, y, c)[byte_index(
                g,
                x2,
                y2,
                k2,
            )] == if x2 == x && y2 == y && k2 < 3 {
                channel_value(g.pixel_format, c, k2)
            } else {
                fb[byte_index(g, x2, y2, k2)]
            },
{
    lemma_byte_index_bounds(g, x, y, 0);
    lemma_byte_index_bounds(g, x, y, 1);
    lemma_byte_index_bounds(g, x, y, 2);
    assert forall|x2: int, y2: int, k2: int| #[trigger] valid_triple(g, x2, y2, k2) implies with_pixel(
        fb,
        g,
        x,
        y,
        c,
    )[byte_index(g, x2, y2, k2)] == if x2 == x && y2 == y && k2 < 3 {
        channel_value(g.pixel_format, c, k2)
    } else {
        fb[byte_index(g, x2, y2, k2)]
    } by {
        lemma_byte_index_bounds(g, x2, y2, k2);
        let i2 = byte_index(g, x2, y2, k2);
        if i2 == byte_index(g, x, y, 0) {
            lemma_byte_index_injective(g, x2, y2, k2, x, y, 0);
        }
        if i2 == byte_index(g, x, y, 1) {
            lemma_byte_index_injective(g, x2, y2, k2, x, y, 1);
        }
        if i2 == byte_index(g, x, y, 2) {
            lemma_byte_index_injective(g, x2, y2, k2, x, y, 2);
        }
    }
}

} // verus!
