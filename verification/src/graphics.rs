use vstd::prelude::*;

use crate::color::Color;
use crate::unifont::{get_glyph, glyph_lookup, Font, Glyph};
use vstd::string::StrSliceExecFns;
use crate::geometry::{
    row_bytes, lemma_row_layout,
    byte_index, channel_value, lemma_byte_index_bounds, lemma_with_pixel_bytes, valid_triple,
    with_pixel, FramebufferGeometry,
};

verus! {

/// A caller contract violation that a drawing call reports instead of
/// drawing anything. The operation is skipped entirely; no partial write
/// happens.
#[derive(Clone, Copy, PartialEq, Eq, Structural, Debug)]
pub enum DrawError {
    BitmapSizeMismatch,
}

/// The painter exclusively owns the raw framebuffer bytes together with
/// their geometry descriptor and performs all clipped, pixel-format-aware
/// writes to them.
pub struct Painter {
    framebuffer: Vec<u8>,
    info: FramebufferGeometry,
}

/// True when `draw_pixel(x, y, c)` actually writes: the coordinates lie in
/// `[0, width) x [0, height)` and the color is not transparent.
pub open spec fn pixel_hit(g: FramebufferGeometry, x: int, y: int, c: Color) -> bool {
    &&& 0 <= x < g.width
    &&& 0 <= y < g.height
    &&& !c.is_transparent()
}

/// True when the pixel `(px, py)` belongs to the rectangle at `(x, y)` of
/// size `w x h` after clamping the rectangle to the screen bounds.
pub open spec fn rect_covers(
    g: FramebufferGeometry,
    x: int,
    y: int,
    w: int,
    h: int,
    px: int,
    py: int,
) -> bool {
    &&& x <= px < x + w
    &&& px < g.width
    &&& y <= py < y + h
    &&& py < g.height
}

impl Painter {
    /// The geometry the painter was created with.
    pub closed spec fn geom(self) -> FramebufferGeometry {
        self.info
    }

    /// The framebuffer bytes.
    pub closed spec fn fb(self) -> Seq<u8> {
        self.framebuffer@
    }

    /// Channel byte `k` of the pixel at `(x, y)`.
    pub open spec fn byte(self, x: int, y: int, k: int) -> u8 {
        self.fb()[byte_index(self.geom(), x, y, k)]
    }

    /// The painter's invariant: a supported geometry and a byte buffer of
    /// exactly `stride * height * bytes_per_pixel` bytes.
    pub open spec fn wf(self) -> bool {
        &&& self.geom().wf()
        &&& self.fb().len() == self.geom().total_bytes()
    }

    /// Takes ownership of the framebuffer bytes. No other component may
    /// touch them afterwards; every write goes through the painter.
    pub fn new(framebuffer: Vec<u8>, info: FramebufferGeometry) -> (p: Painter)
        requires
            info.wf(),
            framebuffer@.len() == info.total_bytes(),
        ensures
            p.wf(),
            p.geom() == info,
            p.fb() == framebuffer@,
    {
        Painter { framebuffer, info }
    }

    pub fn get_width(&self) -> (w: u32)
        requires
            self.wf(),
        ensures
            w == self.geom().width,
    {
        self.info.width as u32
    }

    pub fn get_height(&self) -> (h: u32)
        requires
            self.wf(),
        ensures
            h == self.geom().height,
    {
        self.info.height as u32
    }

    /// Reads one raw framebuffer byte back; the offset of channel `k` of
    /// pixel `(x, y)` is `(y * stride + x) * bytes_per_pixel + k`.
    pub fn get_byte(&self, i: usize) -> (b: u8)
        requires
            i < self.fb().len(),
        ensures
            b == self.fb()[i as int],
    {
        self.framebuffer[i]
    }

    pub(crate) fn info_copy(&self) -> (g: FramebufferGeometry)
        ensures
            g == self.geom(),
    {
        self.info
    }

    /// Writes the three channel bytes of one in-bounds pixel, in the order
    /// dictated by the pixel format.
    pub(crate) fn put_pixel(&mut self, x: usize, y: usize, color: Color)
        requires
            old(self).wf(),
            x < old(self).geom().width,
            y < old(self).geom().height,
        ensures
            final(self).wf(),
            final(self).geom() == old(self).geom(),
            final(self).fb() == with_pixel(
                old(self).fb(),
                old(self).geom(),
                x as int,
                y as int,
                color,
            ),
    {
        let geom = self.info;
        let n = self.framebuffer.len();
        proof {
            lemma_byte_index_bounds(geom, x as int, y as int, 0);
            lemma_byte_index_bounds(geom, x as int, y as int, 1);
            lemma_byte_index_bounds(geom, x as int, y as int, 2);
        }
        let base = (y * geom.stride + x) * geom.bytes_per_pixel;
        match geom.pixel_format {
            crate::geometry::PixelFormat::Rgb => {
                self.framebuffer[base] = color.r;
                self.framebuffer[base + 1] = color.g;
                self.framebuffer[base + 2] = color.b;
            },
            crate::geometry::PixelFormat::Bgr => {
                self.framebuffer[base] = color.b;
                self.framebuffer[base + 1] = color.g;
                self.framebuffer[base + 2] = color.r;
            },
        }
    }

    /// Draws one pixel. A no-op when the coordinates fall outside
    /// `[0, width) x [0, height)` or when the color is transparent;
    /// otherwise writes the pixel's three channel bytes in format order at
    /// byte offset `(y * stride + x) * bytes_per_pixel`.
    pub fn draw_pixel(&mut self, x: u32, y: u32, color: Color)
        requires
            old(self).wf(),
        ensures
            final(self).wf(),
            final(self).geom() == old(self).geom(),
            pixel_hit(old(self).geom(), x as int, y as int, color) ==> final(self).fb()
                == with_pixel(old(self).fb(), old(self).geom(), x as int, y as int, color),
            !pixel_hit(old(self).geom(), x as int, y as int, color) ==> final(self).fb() == old(
                self,
            ).fb(),
    {
        let xu = x as usize;
        let yu = y as usize;
        if xu >= self.info.width || yu >= self.info.height || color.a == 0 {
            return ;
        }
        self.put_pixel(xu, yu, color);
    }

    /// Fills a rectangle. A no-op when the color is transparent. The width
    /// and height are silently clamped so the fill never writes outside
    /// `[0, width) x [0, height)`, even when `x + w` or `y + h` reach past
    /// the screen edge; the written region is exactly the clamped
    /// rectangle. No per-pixel transparency or bounds branch is taken.
    pub fn draw_rect(&mut self, x: u32, y: u32, width: u32, height: u32, color: Color)
        requires
            old(self).wf(),
        ensures
            final(self).wf(),
            final(self).geom() == old(self).geom(),
            final(self).fb().len() == old(self).fb().len(),
            color.is_transparent() ==> final(self).fb() == old(self).fb(),
            !color.is_transparent() ==> forall|px: int, py: int, k: int|
                #[trigger] valid_triple(old(self).geom(), px, py, k) ==> final(self).byte(
                    px,
                    py,
                    k,
                ) == if rect_covers(
                    old(self).geom(),
                    x as int,
                    y as int,
                    width as int,
                    height as int,
                    px,
                    py,
                ) && k < 3 {
                    channel_value(old(self).geom().pixel_format, color, k)
                } else {
                    old(self).byte(px, py, k)
                },
    {
        if color.a == 0 {
            return ;
        }
        let geom = self.info;
        let ghost fb0 = self.fb();
        let x0 = x as usize;
        let y0 = y as usize;
        let xe = if x0 >= geom.width {
            geom.width
        } else if (width as usize) < geom.width - x0 {
            x0 + width as usize
        } else {
            geom.width
        };
        let ye = if y0 >= geom.height {
            geom.height
        } else if (height as usize) < geom.height - y0 {
            y0 + height as usize
        } else {
            geom.height
        };
        let xs = if x0 > xe {
            xe
        } else {
            x0
        };
        let ys = if y0 > ye {
            ye
        } else {
            y0
        };
        let mut py = ys;
        while py < ye
            invariant
                self.wf(),
                self.geom() == geom,
                self.fb().len() == fb0.len(),
                fb0.len() == geom.total_bytes(),
                xe <= geom.width,
                ye <= geom.height,
                xs <= xe,
                ys <= py <= ye,
                forall|a: int, b: int, k: int| #[trigger] valid_triple(geom, a, b, k) ==> self.fb()[
                    byte_index(geom, a, b, k)
                ] == if xs <= a < xe && ys <= b < py && k < 3 {
                    channel_value(geom.pixel_format, color, k)
                } else {
                    fb0[byte_index(geom, a, b, k)]
                },
            decreases ye - py,
        {
            let mut px = xs;
            while px < xe
                invariant
                    self.wf(),
                    self.geom() == geom,
                    self.fb().len() == fb0.len(),
                    fb0.len() == geom.total_bytes(),
                    xe <= geom.width,
                    ye <= geom.height,
                    ys <= py < ye,
                    xs <= px <= xe,
                    forall|a: int, b: int, k: int|
                        #[trigger] valid_triple(geom, a, b, k) ==> self.fb()[byte_index(
                            geom,
                            a,
                            b,
                            k,
                        )] == if (xs <= a < xe && ys <= b < py && k < 3) || (b == py && xs <= a < px
                            && k < 3) {
                            channel_value(geom.pixel_format, color, k)
                        } else {
                            fb0[byte_index(geom, a, b, k)]
                        },
                decreases xe - px,
            {
                let ghost fbp = self.fb();
                self.put_pixel(px, py, color);
                proof {
                    lemma_with_pixel_bytes(fbp, geom, px as int, py as int, color);
                }
                px += 1;
            }
            py += 1;
        }
    }

    /// Scrolls the framebuffer contents up by `rows` rows: every byte of
    /// row `rows + j` moves to row `j`, for the `height - rows` rows that
    /// remain. The bottom `rows` rows keep their prior bytes; clearing them
    /// is the caller's responsibility. The copy behaves as if a temporary
    /// copy of the source were taken first (it runs forward, which is safe
    /// for this overlap direction).
    pub fn move_all_up(&mut self, y: u32)
        requires
            old(self).wf(),
            y <= old(self).geom().height,
        ensures
            final(self).wf(),
            final(self).geom() == old(self).geom(),
            final(self).fb().len() == old(self).fb().len(),
            forall|i: int|
                0 <= i < (old(self).geom().height - y) * row_bytes(old(self).geom())
                    ==> final(self).fb()[i] == old(self).fb()[i + y * row_bytes(old(self).geom())],
            forall|i: int|
                (old(self).geom().height - y) * row_bytes(old(self).geom()) <= i
                    < old(self).fb().len() ==> final(self).fb()[i] == old(self).fb()[i],
    {
        let geom = self.info;
        let ghost fb0 = self.fb();
        let n = self.framebuffer.len();
        proof {
            lemma_row_layout(geom);
        }
        let yu = y as usize;
        let rows_to_move = geom.height - yu;
        if rows_to_move == 0 {
            proof {
                assert((geom.height - y) * row_bytes(geom) == 0) by (nonlinear_arith)
                    requires
                        geom.height - y == 0,
                ;
            }
            return ;
        }
        proof {
            let s = geom.stride as int;
            let h = geom.height as int;
            let b = geom.bytes_per_pixel as int;
            let yi = y as int;
            assert(s * b <= h * (s * b) && yi * (s * b) <= h * (s * b) && (h - yi) * (s * b) + yi
                * (s * b) == h * (s * b) && 0 <= yi * (s * b) && 0 <= (h - yi) * (s * b))
                by (nonlinear_arith)
                requires
                    1 <= h,
                    0 <= yi <= h,
                    0 <= s,
                    0 <= b,
            ;
        }
        let bytes_per_row = geom.stride * geom.bytes_per_pixel;
        let shift = yu * bytes_per_row;
        let move_len = rows_to_move * bytes_per_row;
        let mut i: usize = 0;
        while i < move_len
            invariant
                self.wf(),
                self.geom() == geom,
                self.fb().len() == fb0.len(),
                fb0.len() == geom.total_bytes(),
                i <= move_len,
                fb0.len() == n,
                move_len + shift == fb0.len(),
                shift == y * row_bytes(geom),
                move_len == (geom.height - y) * row_bytes(geom),
                forall|j: int| 0 <= j < i ==> self.fb()[j] == fb0[j + shift],
                forall|j: int| i <= j < fb0.len() ==> self.fb()[j] == fb0[j],
            decreases move_len - i,
        {
            let v = self.framebuffer[i + shift];
            self.framebuffer[i] = v;
            i += 1;
        }
    }
}

/// Scrolls the painter's framebuffer contents up by `y` rows; the bottom
/// `y` rows keep their prior bytes.
pub fn move_all_up(painter: &mut Painter, y: u32)
    requires
        old(painter).wf(),
        y <= old(painter).geom().height,
    ensures
        final(painter).wf(),
        final(painter).geom() == old(painter).geom(),
        final(painter).fb().len() == old(painter).fb().len(),
        forall|i: int|
            0 <= i < (old(painter).geom().height - y) * row_bytes(old(painter).geom())
                ==> final(painter).fb()[i] == old(painter).fb()[i + y * row_bytes(
                old(painter).geom(),
            )],
        forall|i: int|
            (old(painter).geom().height - y) * row_bytes(old(painter).geom()) <= i
                < old(painter).fb().len() ==> final(painter).fb()[i] == old(painter).fb()[i],
{
    painter.move_all_up(y);
}

/// Draws one clipped pixel into the painter's framebuffer.
pub fn draw_pixel(painter: &mut Painter, x: u32, y: u32, color: Color)
    requires
        old(painter).wf(),
    ensures
        final(painter).wf(),
        final(painter).geom() == old(painter).geom(),
        pixel_hit(old(painter).geom(), x as int, y as int, color) ==> final(painter).fb()
            == with_pixel(old(painter).fb(), old(painter).geom(), x as int, y as int, color),
        !pixel_hit(old(painter).geom(), x as int, y as int, color) ==> final(painter).fb() == old(
            painter,
        ).fb(),
{
    painter.draw_pixel(x, y, color);
}

/// Fills a clamped rectangle of the painter's framebuffer.
pub fn draw_rect(painter: &mut Painter, x: u32, y: u32, width: u32, height: u32, color: Color)
    requires
        old(painter).wf(),
    ensures
        final(painter).wf(),
        final(painter).geom() == old(painter).geom(),
        final(painter).fb().len() == old(painter).fb().len(),
        color.is_transparent() ==> final(painter).fb() == old(painter).fb(),
        !color.is_transparent() ==> forall|px: int, py: int, k: int|
            #[trigger] valid_triple(old(painter).geom(), px, py, k) ==> final(painter).byte(
                px,
                py,
                k,
            ) == if rect_covers(
                old(painter).geom(),
                x as int,
                y as int,
                width as int,
                height as int,
                px,
                py,
            ) && k < 3 {
                channel_value(old(painter).geom().pixel_format, color, k)
            } else {
                old(painter).byte(px, py, k)
            },
{
    painter.draw_rect(x, y, width, height, color);
}

pub fn get_width(painter: &Painter) -> (w: u32)
    requires
        painter.wf(),
    ensures
        w == painter.geom().width,
{
    painter.get_width()
}

pub fn get_height(painter: &Painter) -> (h: u32)
    requires
        painter.wf(),
    ensures
        h == painter.geom().height,
{
    painter.get_height()
}

/// Copies a `width * height` row-major bitmap to screen position
/// `(x, y)`, one clipped pixel at a time, honoring transparency. When the
/// bitmap does not hold exactly `width * height` colors the operation is
/// aborted, nothing is drawn, and the mismatch is reported.
pub fn draw_bitmap(
    painter: &mut Painter,
    x: u32,
    y: u32,
    width: u32,
    height: u32,
    bitmap: &[Color],
) -> (r: Result<(), DrawError>)
    requires
        old(painter).wf(),
    ensures
        final(painter).wf(),
        final(painter).geom() == old(painter).geom(),
        final(painter).fb().len() == old(painter).fb().len(),
        r is Err <==> bitmap@.len() != width * height,
        r is Err ==> r == Err::<(), DrawError>(DrawError::BitmapSizeMismatch) && final(painter).fb()
            == old(painter).fb(),
        r is Ok ==> forall|px: int, py: int, k: int|
            #[trigger] valid_triple(old(painter).geom(), px, py, k) ==> final(painter).byte(
                px,
                py,
                k,
            ) == if x <= px < x + width && y <= py < y + height && px < old(painter).geom().width
                && py < old(painter).geom().height && !bitmap@[(py - y) * width + (px
                - x)].is_transparent() && k < 3 {
                channel_value(
                    old(painter).geom().pixel_format,
                    bitmap@[(py - y) * width + (px - x)],
                    k,
                )
            } else {
                old(painter).byte(px, py, k)
            },
{
    proof {
        assert((width as int) * (height as int) <= 0xffff_fffe_0000_0001int) by (nonlinear_arith)
            requires
                width <= 0xffff_ffffu32,
                height <= 0xffff_ffffu32,
        ;
    }
    if (bitmap.len() as u64) != (width as u64) * (height as u64) {
        return Err(DrawError::BitmapSizeMismatch);
    }
    let bl = bitmap.len();
    let geom = painter.info_copy();
    let ghost fb0 = painter.fb();
    let mut j: usize = 0;
    while j < height as usize
        invariant
            painter.wf(),
            painter.geom() == geom,
            geom == old(painter).geom(),
            fb0 == old(painter).fb(),
            painter.fb().len() == fb0.len(),
            fb0.len() == geom.total_bytes(),
            j <= height,
            bitmap@.len() == width * height,
            bitmap@.len() <= usize::MAX,
            forall|px: int, py: int, k: int|
                #[trigger] valid_triple(geom, px, py, k) ==> painter.byte(px, py, k) == if x <= px
                    < x + width && y <= py < y + j && px < geom.width && py < geom.height
                    && !bitmap@[(py - y) * width + (px - x)].is_transparent() && k < 3 {
                    channel_value(geom.pixel_format, bitmap@[(py - y) * width + (px - x)], k)
                } else {
                    fb0[byte_index(geom, px, py, k)]
                },
        decreases height - j,
    {
        let mut i: usize = 0;
        while i < width as usize
            invariant
                painter.wf(),
                painter.geom() == geom,
                geom == old(painter).geom(),
                fb0 == old(painter).fb(),
                painter.fb().len() == fb0.len(),
                fb0.len() == geom.total_bytes(),
                j < height,
                i <= width,
                bitmap@.len() == width * height,
                bitmap@.len() <= usize::MAX,
                forall|px: int, py: int, k: int|
                    #[trigger] valid_triple(geom, px, py, k) ==> painter.byte(px, py, k)
                        == if ((x <= px < x + width && y <= py < y + j) || (py == y + j && x <= px
                        < x + i)) && px < geom.width && py < geom.height && !bitmap@[(py - y) * width
                        + (px - x)].is_transparent() && k < 3 {
                        channel_value(geom.pixel_format, bitmap@[(py - y) * width + (px - x)], k)
                    } else {
                        fb0[byte_index(geom, px, py, k)]
                    },
            decreases width - i,
        {
            proof {
                crate::layer::lemma_cell_bounds(width as int, height as int, i as int, j as int);
            }
            let c = bitmap[j * (width as usize) + i];
            let sx = (x as u64) + (i as u64);
            let sy = (y as u64) + (j as u64);
            if sx < (geom.width as u64) && sy < (geom.height as u64) && c.a != 0 {
                let ghost fbp = painter.fb();
                painter.put_pixel(sx as usize, sy as usize, c);
                proof {
                    lemma_with_pixel_bytes(fbp, geom, sx as int, sy as int, c);
                }
            }
            i += 1;
        }
        j += 1;
    }
    Ok(())
}

/// The minor-axis offset Bresenham's rasterizer selects at major-axis
/// offset `jj` of a line with major extent `dx` and minor extent `dy`
/// (with `0 <= dy < dx`): the ideal offset `dy * jj / dx` rounded to the
/// nearest integer, ties rounded down.
pub open spec fn bres_offset(dx: int, dy: int, jj: int) -> int {
    (2 * dy * jj + dx - 1) / (2 * dx)
}

/// The y coordinate of the shallow line from `(xa, ya)` to `(xb, yb)`
/// (`xa < xb` and `|yb - ya| < xb - xa`) at column `px`.
pub open spec fn low_line_y(xa: int, ya: int, xb: int, yb: int, px: int) -> int {
    if yb >= ya {
        ya + bres_offset(xb - xa, yb - ya, px - xa)
    } else {
        ya - bres_offset(xb - xa, ya - yb, px - xa)
    }
}

/// The x coordinate of the steep line from `(xa, ya)` to `(xb, yb)`
/// (`ya < yb` and `|xb - xa| < yb - ya`) at row `py`.
pub open spec fn high_line_x(xa: int, ya: int, xb: int, yb: int, py: int) -> int {
    if xb >= xa {
        xa + bres_offset(yb - ya, xb - xa, py - ya)
    } else {
        xa - bres_offset(yb - ya, xa - xb, py - ya)
    }
}

/// The pixels of the single-pixel-wide 8-connected line from `(x0, y0)`
/// to `(x1, y1)`: one pixel per major-axis coordinate, at the rounded
/// ideal minor-axis coordinate. Horizontal and vertical lines cover their
/// exact segment.
pub open spec fn line_covers(x0: int, y0: int, x1: int, y1: int, px: int, py: int) -> bool {
    let dx = if x1 >= x0 {
        x1 - x0
    } else {
        x0 - x1
    };
    let dy = if y1 >= y0 {
        y1 - y0
    } else {
        y0 - y1
    };
    if x0 == x1 {
        px == x0 && (if y0 <= y1 {
            y0 <= py <= y1
        } else {
            y1 <= py <= y0
        })
    } else if y0 == y1 {
        py == y0 && (if x0 <= x1 {
            x0 <= px <= x1
        } else {
            x1 <= px <= x0
        })
    } else if dy < dx {
        if x0 <= x1 {
            x0 <= px <= x1 && py == low_line_y(x0, y0, x1, y1, px)
        } else {
            x1 <= px <= x0 && py == low_line_y(x1, y1, x0, y0, px)
        }
    } else {
        if y0 <= y1 {
            y0 <= py <= y1 && px == high_line_x(x0, y0, x1, y1, py)
        } else {
            y1 <= py <= y0 && px == high_line_x(x1, y1, x0, y0, py)
        }
    }
}

/// Rasterized lines are monotonic: walking one step along the major axis
/// moves the selected minor-axis offset by zero or one, and never
/// backwards. Together with the one-pixel-per-major-coordinate shape of
/// `low_line_y` and `high_line_x`, this makes every rasterized line an
/// 8-connected sequence in which each step changes the major coordinate
/// by exactly one and the minor coordinate by at most one, monotonically.
pub proof fn lemma_bres_offset_step(dx: int, dy: int, jj: int)
    requires
        0 < dx,
        0 <= dy <= dx,
        0 <= jj,
    ensures
        bres_offset(dx, dy, jj) <= bres_offset(dx, dy, jj + 1) <= bres_offset(dx, dy, jj) + 1,
{
    let d = 2 * dx;
    let n1 = 2 * dy * jj + dx - 1;
    let n2 = 2 * dy * (jj + 1) + dx - 1;
    assert(n2 == n1 + 2 * dy) by (nonlinear_arith)
        requires
            n1 == 2 * dy * jj + dx - 1,
            n2 == 2 * dy * (jj + 1) + dx - 1,
    ;
    vstd::arithmetic::div_mod::lemma_fundamental_div_mod(n1, d);
    vstd::arithmetic::div_mod::lemma_mod_bound(n1, d);
    let q1 = n1 / d;
    let r1 = n1 % d;
    if r1 + 2 * dy < d {
        vstd::arithmetic::div_mod::lemma_fundamental_div_mod_converse(n2, d, q1, r1 + 2 * dy);
    } else {
        assert(n2 == (q1 + 1) * d + (r1 + 2 * dy - d)) by (nonlinear_arith)
            requires
                n1 == d * q1 + r1,
                n2 == n1 + 2 * dy,
        ;
        vstd::arithmetic::div_mod::lemma_fundamental_div_mod_converse(
            n2,
            d,
            q1 + 1,
            r1 + 2 * dy - d,
        );
    }
}

/// One Bresenham error-accumulator step: with the error term pinned to its
/// exact value and range for offset `kk` at major position `jj`, the
/// updated term pins the next offset `kkn` at `jj + 1` to the rounded
/// ideal offset.
proof fn lemma_bres_step(dxi: int, dyi: int, jj: int, kk: int, kkn: int, d: int, dn: int)
    requires
        0 < dxi,
        0 <= dyi <= dxi,
        0 <= jj,
        d == 2 * dyi * (jj + 1) - (2 * kk + 1) * dxi,
        2 * dyi - 2 * dxi < d <= 2 * dyi,
        d > 0 ==> kkn == kk + 1 && dn == d + 2 * (dyi - dxi),
        d <= 0 ==> kkn == kk && dn == d + 2 * dyi,
    ensures
        dn == 2 * dyi * (jj + 2) - (2 * kkn + 1) * dxi,
        2 * dyi - 2 * dxi < dn <= 2 * dyi,
        kkn == bres_offset(dxi, dyi, jj + 1),
{
    assert(dn == 2 * dyi * (jj + 2) - (2 * kkn + 1) * dxi && 2 * dyi - 2 * dxi < dn <= 2 * dyi)
        by (nonlinear_arith)
        requires
            0 < dxi,
            0 <= dyi <= dxi,
            d == 2 * dyi * (jj + 1) - (2 * kk + 1) * dxi,
            2 * dyi - 2 * dxi < d <= 2 * dyi,
            d > 0 ==> kkn == kk + 1 && dn == d + 2 * (dyi - dxi),
            d <= 0 ==> kkn == kk && dn == d + 2 * dyi,
    ;
    let n = 2 * dyi * (jj + 1) + dxi - 1;
    let r = n - 2 * dxi * kkn;
    assert(0 <= r < 2 * dxi && n == kkn * (2 * dxi) + r) by (nonlinear_arith)
        requires
            0 < dxi,
            n == 2 * dyi * (jj + 1) + dxi - 1,
            r == n - 2 * dxi * kkn,
            dn == 2 * dyi * (jj + 2) - (2 * kkn + 1) * dxi,
            2 * dyi - 2 * dxi < dn <= 2 * dyi,
    ;
    vstd::arithmetic::div_mod::lemma_fundamental_div_mod_converse(n, 2 * dxi, kkn, r);
}

/// The rasterizer starts at offset zero.
proof fn lemma_bres_start(dxi: int, dyi: int)
    requires
        0 < dxi,
        0 <= dyi,
    ensures
        bres_offset(dxi, dyi, 0) == 0,
{
    vstd::arithmetic::div_mod::lemma_fundamental_div_mod_converse(dxi - 1, 2 * dxi, 0, dxi - 1);
}

/// The selected offset never exceeds the minor extent.
proof fn lemma_bres_offset_le(dxi: int, dyi: int, jj: int, kk: int, d: int)
    requires
        0 < dxi,
        0 <= dyi <= dxi,
        0 <= jj <= dxi,
        d == 2 * dyi * (jj + 1) - (2 * kk + 1) * dxi,
        2 * dyi - 2 * dxi < d <= 2 * dyi,
    ensures
        0 <= kk <= dyi,
        d > 0 && jj + 1 <= dxi ==> kk < dyi,
{
    assert(0 <= kk <= dyi && (d > 0 && jj + 1 <= dxi ==> kk < dyi)) by (nonlinear_arith)
        requires
            0 < dxi,
            0 <= dyi <= dxi,
            0 <= jj <= dxi,
            d == 2 * dyi * (jj + 1) - (2 * kk + 1) * dxi,
            2 * dyi - 2 * dxi < d <= 2 * dyi,
    ;
}

/// Rasterizes the shallow line from `(x0, y0)` to `(x1, y1)` left to
/// right, selecting the next row by the sign of the doubled error term and
/// stepping the row downward when the line descends.
fn draw_line_low(painter: &mut Painter, x0: u32, y0: u32, x1: u32, y1: u32, color: Color)
    requires
        old(painter).wf(),
        x0 < x1,
        (if y1 >= y0 {
            y1 - y0
        } else {
            y0 - y1
        }) < x1 - x0,
    ensures
        final(painter).wf(),
        final(painter).geom() == old(painter).geom(),
        final(painter).fb().len() == old(painter).fb().len(),
        forall|px: int, py: int, k: int|
            #[trigger] valid_triple(old(painter).geom(), px, py, k) ==> final(painter).byte(
                px,
                py,
                k,
            ) == if x0 <= px <= x1 && py == low_line_y(x0 as int, y0 as int, x1 as int, y1 as int, px)
                && px < old(painter).geom().width && py < old(painter).geom().height
                && !color.is_transparent() && k < 3 {
                channel_value(old(painter).geom().pixel_format, color, k)
            } else {
                old(painter).byte(px, py, k)
            },
{
    let geom = painter.info_copy();
    let ghost fb0 = painter.fb();
    let dx64 = (x1 - x0) as u64;
    let dy64: u64;
    let inverse: bool;
    if y1 > y0 {
        dy64 = (y1 - y0) as u64;
        inverse = false;
    } else {
        dy64 = (y0 - y1) as u64;
        inverse = true;
    }
    let ghost dxi = dx64 as int;
    let ghost dyi = dy64 as int;
    let mut d: i64 = 2 * (dy64 as i64) - (dx64 as i64);
    let mut yy: u32 = y0;
    let mut jj: u64 = 0;
    proof {
        lemma_bres_start(dxi, dyi);
        assert((2 * bres_offset(dxi, dyi, 0) + 1) * dxi == dxi && 2 * dyi * (0 + 1) == 2 * dyi)
            by (nonlinear_arith)
            requires
                bres_offset(dxi, dyi, 0) == 0,
        ;
    }
    while jj <= dx64
        invariant
            painter.wf(),
            painter.geom() == geom,
            geom == old(painter).geom(),
            fb0 == old(painter).fb(),
            painter.fb().len() == fb0.len(),
            fb0.len() == geom.total_bytes(),
            x0 < x1,
            dxi == dx64,
            dyi == dy64,
            dx64 == x1 - x0,
            dy64 == (if y1 >= y0 {
                y1 - y0
            } else {
                y0 - y1
            }),
            inverse == (y0 >= y1),
            dy64 < dx64,
            jj <= dx64 + 1,
            jj <= dx64 ==> {
                &&& (inverse ==> yy == y0 - bres_offset(dxi, dyi, jj as int))
                &&& (!inverse ==> yy == y0 + bres_offset(dxi, dyi, jj as int))
                &&& 0 <= bres_offset(dxi, dyi, jj as int) <= dyi
                &&& d == 2 * dyi * (jj + 1) - (2 * bres_offset(dxi, dyi, jj as int) + 1) * dxi
                &&& 2 * dyi - 2 * dxi < d <= 2 * dyi
            },
            forall|px: int, py: int, k: int|
                #[trigger] valid_triple(geom, px, py, k) ==> painter.byte(px, py, k) == if x0 <= px
                    < x0 + jj && py == low_line_y(x0 as int, y0 as int, x1 as int, y1 as int, px)
                    && px < geom.width && py < geom.height && !color.is_transparent() && k < 3 {
                    channel_value(geom.pixel_format, color, k)
                } else {
                    fb0[byte_index(geom, px, py, k)]
                },
        decreases dx64 + 1 - jj,
    {
        let ghost kk = bres_offset(dxi, dyi, jj as int);
        let x = ((x0 as u64) + jj) as u32;
        let ghost fbp = painter.fb();
        painter.draw_pixel(x, yy, color);
        proof {
            if pixel_hit(geom, x as int, yy as int, color) {
                lemma_with_pixel_bytes(fbp, geom, x as int, yy as int, color);
            }
        }
        if jj < dx64 {
            proof {
                lemma_bres_offset_le(dxi, dyi, jj as int, kk, d as int);
            }
            let ghost d_before = d as int;
            if d > 0 {
                if inverse {
                    yy -= 1;
                } else {
                    yy += 1;
                }
                d += 2 * ((dy64 as i64) - (dx64 as i64));
            } else {
                d += 2 * (dy64 as i64);
            }
            proof {
                let kkn: int = if d_before > 0 {
                    kk + 1
                } else {
                    kk
                };
                lemma_bres_step(dxi, dyi, jj as int, kk, kkn, d_before, d as int);
                lemma_bres_offset_le(dxi, dyi, jj as int + 1, kkn, d as int);
            }
        }
        jj += 1;
    }
}

/// Rasterizes the steep line from `(x0, y0)` to `(x1, y1)` top to bottom,
/// selecting the next column by the sign of the doubled error term and
/// stepping the column leftward when the line runs leftward.
fn draw_line_high(painter: &mut Painter, x0: u32, y0: u32, x1: u32, y1: u32, color: Color)
    requires
        old(painter).wf(),
        y0 < y1,
        (if x1 >= x0 {
            x1 - x0
        } else {
            x0 - x1
        }) <= y1 - y0,
    ensures
        final(painter).wf(),
        final(painter).geom() == old(painter).geom(),
        final(painter).fb().len() == old(painter).fb().len(),
        forall|px: int, py: int, k: int|
            #[trigger] valid_triple(old(painter).geom(), px, py, k) ==> final(painter).byte(
                px,
                py,
                k,
            ) == if y0 <= py <= y1 && px == high_line_x(
                x0 as int,
                y0 as int,
                x1 as int,
                y1 as int,
                py,
            ) && px < old(painter).geom().width && py < old(painter).geom().height
                && !color.is_transparent() && k < 3 {
                channel_value(old(painter).geom().pixel_format, color, k)
            } else {
                old(painter).byte(px, py, k)
            },
{
    let geom = painter.info_copy();
    let ghost fb0 = painter.fb();
    let dy64 = (y1 - y0) as u64;
    let dx64: u64;
    let inverse: bool;
    if x1 > x0 {
        dx64 = (x1 - x0) as u64;
        inverse = false;
    } else {
        dx64 = (x0 - x1) as u64;
        inverse = true;
    }
    let ghost dyi = dy64 as int;
    let ghost dxi = dx64 as int;
    let mut d: i64 = 2 * (dx64 as i64) - (dy64 as i64);
    let mut xx: u32 = x0;
    let mut jj: u64 = 0;
    proof {
        lemma_bres_start(dyi, dxi);
        assert((2 * bres_offset(dyi, dxi, 0) + 1) * dyi == dyi && 2 * dxi * (0 + 1) == 2 * dxi)
            by (nonlinear_arith)
            requires
                bres_offset(dyi, dxi, 0) == 0,
        ;
    }
    while jj <= dy64
        invariant
            painter.wf(),
            painter.geom() == geom,
            geom == old(painter).geom(),
            fb0 == old(painter).fb(),
            painter.fb().len() == fb0.len(),
            fb0.len() == geom.total_bytes(),
            y0 < y1,
            dyi == dy64,
            dxi == dx64,
            dy64 == y1 - y0,
            dx64 == (if x1 >= x0 {
                x1 - x0
            } else {
                x0 - x1
            }),
            inverse == (x0 >= x1),
            dx64 <= dy64,
            jj <= dy64 + 1,
            jj <= dy64 ==> {
                &&& (inverse ==> xx == x0 - bres_offset(dyi, dxi, jj as int))
                &&& (!inverse ==> xx == x0 + bres_offset(dyi, dxi, jj as int))
                &&& 0 <= bres_offset(dyi, dxi, jj as int) <= dxi
                &&& d == 2 * dxi * (jj + 1) - (2 * bres_offset(dyi, dxi, jj as int) + 1) * dyi
                &&& 2 * dxi - 2 * dyi < d <= 2 * dxi
            },
            forall|px: int, py: int, k: int|
                #[trigger] valid_triple(geom, px, py, k) ==> painter.byte(px, py, k) == if y0 <= py
                    < y0 + jj && px == high_line_x(x0 as int, y0 as int, x1 as int, y1 as int, py)
                    && px < geom.width && py < geom.height && !color.is_transparent() && k < 3 {
                    channel_value(geom.pixel_format, color, k)
                } else {
                    fb0[byte_index(geom, px, py, k)]
                },
        decreases dy64 + 1 - jj,
    {
        let ghost kk = bres_offset(dyi, dxi, jj as int);
        let y = ((y0 as u64) + jj) as u32;
        let ghost fbp = painter.fb();
        painter.draw_pixel(xx, y, color);
        proof {
            if pixel_hit(geom, xx as int, y as int, color) {
                lemma_with_pixel_bytes(fbp, geom, xx as int, y as int, color);
            }
        }
        if jj < dy64 {
            proof {
                lemma_bres_offset_le(dyi, dxi, jj as int, kk, d as int);
            }
            let ghost d_before = d as int;
            if d > 0 {
                if inverse {
                    xx -= 1;
                } else {
                    xx += 1;
                }
                d += 2 * ((dx64 as i64) - (dy64 as i64));
            } else {
                d += 2 * (dx64 as i64);
            }
            proof {
                let kkn: int = if d_before > 0 {
                    kk + 1
                } else {
                    kk
                };
                lemma_bres_step(dyi, dxi, jj as int, kk, kkn, d_before, d as int);
                lemma_bres_offset_le(dyi, dxi, jj as int + 1, kkn, d as int);
            }
        }
        jj += 1;
    }
}

/// Draws the single-pixel-wide 8-connected line from `(x0, y0)` to
/// `(x1, y1)`, clipped to the screen. Horizontal and vertical lines
/// degrade to a rectangle fill; diagonal lines use integer Bresenham
/// rasterization, picking the shallow or steep variant by comparing the
/// axis extents and normalizing the direction of iteration.
pub fn draw_line(painter: &mut Painter, x0: u32, y0: u32, x1: u32, y1: u32, color: Color)
    requires
        old(painter).wf(),
    ensures
        final(painter).wf(),
        final(painter).geom() == old(painter).geom(),
        final(painter).fb().len() == old(painter).fb().len(),
        forall|px: int, py: int, k: int|
            #[trigger] valid_triple(old(painter).geom(), px, py, k) ==> final(painter).byte(
                px,
                py,
                k,
            ) == if line_covers(x0 as int, y0 as int, x1 as int, y1 as int, px, py) && px < old(
                painter,
            ).geom().width && py < old(painter).geom().height && !color.is_transparent() && k < 3 {
                channel_value(old(painter).geom().pixel_format, color, k)
            } else {
                old(painter).byte(px, py, k)
            },
{
    let ghost geom = old(painter).geom();
    let dx = if x0 > x1 {
        x0 - x1
    } else {
        x1 - x0
    };
    let dy = if y0 > y1 {
        y0 - y1
    } else {
        y1 - y0
    };
    if x0 == x1 {
        let ymin = if y0 <= y1 {
            y0
        } else {
            y1
        };
        let h = if dy == u32::MAX {
            u32::MAX
        } else {
            dy + 1
        };
        painter.draw_rect(x0, ymin, 1, h, color);
        proof {
            assert forall|px: int, py: int, k: int| #[trigger] valid_triple(
                geom,
                px,
                py,
                k,
            ) implies painter.byte(px, py, k) == if line_covers(
                x0 as int,
                y0 as int,
                x1 as int,
                y1 as int,
                px,
                py,
            ) && px < geom.width && py < geom.height && !color.is_transparent() && k < 3 {
                channel_value(geom.pixel_format, color, k)
            } else {
                old(painter).byte(px, py, k)
            } by {
            }
        }
    } else if y0 == y1 {
        let xmin = if x0 <= x1 {
            x0
        } else {
            x1
        };
        let w = if dx == u32::MAX {
            u32::MAX
        } else {
            dx + 1
        };
        painter.draw_rect(xmin, y0, w, 1, color);
        proof {
            assert forall|px: int, py: int, k: int| #[trigger] valid_triple(
                geom,
                px,
                py,
                k,
            ) implies painter.byte(px, py, k) == if line_covers(
                x0 as int,
                y0 as int,
                x1 as int,
                y1 as int,
                px,
                py,
            ) && px < geom.width && py < geom.height && !color.is_transparent() && k < 3 {
                channel_value(geom.pixel_format, color, k)
            } else {
                old(painter).byte(px, py, k)
            } by {
            }
        }
    } else if dy < dx {
        if x0 > x1 {
            draw_line_low(painter, x1, y1, x0, y0, color);
        } else {
            draw_line_low(painter, x0, y0, x1, y1, color);
        }
    } else {
        if y0 > y1 {
            draw_line_high(painter, x1, y1, x0, y0, color);
        } else {
            draw_line_high(painter, x0, y0, x1, y1, color);
        }
    }
}

/// The advance width a character contributes: its glyph's width, or zero
/// when the font has no glyph for it.
pub open spec fn char_advance(font: Font, c: char) -> int {
    match glyph_lookup(font, c as int) {
        Some(g) => g.width_spec(),
        None => 0,
    }
}

/// Total advance width of a string of characters drawn left to right.
pub open spec fn advance_of(font: Font, chars: Seq<char>) -> int
    decreases chars.len(),
{
    if chars.len() == 0 {
        0
    } else {
        char_advance(font, chars[0]) + advance_of(font, chars.drop_first())
    }
}

/// The glyph, and the column within it, that a string drawn from pen
/// position `x0` shows at screen column `px`: characters claim disjoint
/// column spans of their glyph's width, left to right; characters without
/// a glyph claim no columns.
pub open spec fn column_char(font: Font, chars: Seq<char>, x0: int, px: int) -> Option<
    (Glyph, int),
>
    decreases chars.len(),
{
    if chars.len() == 0 {
        None
    } else {
        match glyph_lookup(font, chars[0] as int) {
            Some(g) => if x0 <= px < x0 + g.width_spec() {
                Some((g, px - x0))
            } else {
                column_char(font, chars.drop_first(), x0 + g.width_spec(), px)
            },
            None => column_char(font, chars.drop_first(), x0, px),
        }
    }
}

/// Appending a character adds its advance at the end.
pub proof fn lemma_advance_snoc(font: Font, chars: Seq<char>, c: char)
    ensures
        advance_of(font, chars.push(c)) == advance_of(font, chars) + char_advance(font, c),
    decreases chars.len(),
{
    if chars.len() == 0 {
        assert(chars.push(c).drop_first() =~= Seq::<char>::empty());
        assert(advance_of(font, Seq::<char>::empty()) == 0);
    } else {
        assert(chars.push(c).drop_first() =~= chars.drop_first().push(c));
        assert(chars.push(c)[0] == chars[0]);
        lemma_advance_snoc(font, chars.drop_first(), c);
    }
}

/// Appending a character extends the claimed columns by the appended
/// glyph's span, which starts at the pen position after the existing
/// characters.
pub proof fn lemma_column_char_snoc(font: Font, chars: Seq<char>, c: char, x0: int, px: int)
    ensures
        column_char(font, chars.push(c), x0, px) == if column_char(font, chars, x0, px) is Some {
            column_char(font, chars, x0, px)
        } else {
            match glyph_lookup(font, c as int) {
                Some(g) => if x0 + advance_of(font, chars) <= px < x0 + advance_of(font, chars)
                    + g.width_spec() {
                    Some((g, px - (x0 + advance_of(font, chars))))
                } else {
                    None
                },
                None => None,
            }
        },
    decreases chars.len(),
{
    lemma_advance_snoc(font, chars, c);
    if chars.len() == 0 {
        assert(chars.push(c)[0] == c);
        assert(chars.push(c).drop_first() =~= Seq::<char>::empty());
        assert(advance_of(font, chars) == 0);
        assert(column_char(font, chars, x0, px) is None);
        match glyph_lookup(font, c as int) {
            Some(g) => {
                assert(column_char(font, Seq::<char>::empty(), x0 + g.width_spec(), px) is None);
            },
            None => {
                assert(column_char(font, Seq::<char>::empty(), x0, px) is None);
            },
        }
    } else {
        assert(chars.push(c)[0] == chars[0]);
        assert(chars.push(c).drop_first() =~= chars.drop_first().push(c));
        match glyph_lookup(font, chars[0] as int) {
            Some(g) => {
                if !(x0 <= px < x0 + g.width_spec()) {
                    lemma_column_char_snoc(font, chars.drop_first(), c, x0 + g.width_spec(), px);
                    lemma_advance_snoc(font, chars.drop_first(), c);
                }
            },
            None => {
                lemma_column_char_snoc(font, chars.drop_first(), c, x0, px);
                lemma_advance_snoc(font, chars.drop_first(), c);
            },
        }
    }
}

/// Advance widths are never negative.
pub proof fn lemma_advance_nonneg(font: Font, chars: Seq<char>)
    ensures
        0 <= advance_of(font, chars),
    decreases chars.len(),
{
    if chars.len() > 0 {
        lemma_advance_nonneg(font, chars.drop_first());
    }
}

/// A string claims only columns of its own span: from the pen position to
/// the pen position plus its total advance.
pub proof fn lemma_column_char_range(font: Font, chars: Seq<char>, x0: int, px: int)
    ensures
        column_char(font, chars, x0, px) is Some ==> x0 <= px < x0 + advance_of(font, chars),
    decreases chars.len(),
{
    if chars.len() > 0 {
        lemma_advance_nonneg(font, chars.drop_first());
        match glyph_lookup(font, chars[0] as int) {
            Some(g) => {
                if !(x0 <= px < x0 + g.width_spec()) {
                    lemma_column_char_range(font, chars.drop_first(), x0 + g.width_spec(), px);
                }
            },
            None => {
                lemma_column_char_range(font, chars.drop_first(), x0, px);
            },
        }
    }
}

/// The advance width of a character's glyph: 8 or 16 columns, or zero for
/// a character the font does not cover.
pub fn get_char_width(font: &Font, c: char) -> (w: u32)
    requires
        font.wf(),
    ensures
        w == char_advance(*font, c),
{
    if let Some(glyph) = get_glyph(font, c) {
        return glyph.get_width() as u32;
    }
    return 0;
}

/// Draws a character's glyph at `(x, y)`: every set bit of the glyph's
/// 16-row bitmap becomes one clipped opaque pixel of the given color.
/// Returns the glyph's advance width; a character without a glyph draws
/// nothing and contributes zero advance.
pub fn draw_char(painter: &mut Painter, font: &Font, x: u32, y: u32, c: char, color: Color) -> (advance: u32)
    requires
        old(painter).wf(),
        font.wf(),
    ensures
        final(painter).wf(),
        final(painter).geom() == old(painter).geom(),
        final(painter).fb().len() == old(painter).fb().len(),
        advance == char_advance(*font, c),
        forall|px: int, py: int, k: int|
            #[trigger] valid_triple(old(painter).geom(), px, py, k) ==> final(painter).byte(
                px,
                py,
                k,
            ) == if (match glyph_lookup(*font, c as int) {
                Some(g) => g.pixel(px - x, py - y),
                None => false,
            }) && px < old(painter).geom().width && py < old(painter).geom().height
                && !color.is_transparent() && k < 3 {
                channel_value(old(painter).geom().pixel_format, color, k)
            } else {
                old(painter).byte(px, py, k)
            },
{
    let geom = painter.info_copy();
    let ghost fb0 = painter.fb();
    if let Some(glyph) = get_glyph(font, c) {
        let gw = glyph.get_width();
        let mut i: usize = 0;
        while i < gw
            invariant
                painter.wf(),
                painter.geom() == geom,
                geom == old(painter).geom(),
                fb0 == old(painter).fb(),
                painter.fb().len() == fb0.len(),
                fb0.len() == geom.total_bytes(),
                glyph_lookup(*font, c as int) == Some(glyph),
                gw == glyph.width_spec(),
                i <= gw,
                forall|px: int, py: int, k: int|
                    #[trigger] valid_triple(geom, px, py, k) ==> painter.byte(px, py, k)
                        == if glyph.pixel(px - x, py - y) && px < x + i && px < geom.width && py
                        < geom.height && !color.is_transparent() && k < 3 {
                        channel_value(geom.pixel_format, color, k)
                    } else {
                        fb0[byte_index(geom, px, py, k)]
                    },
            decreases gw - i,
        {
            let mut j: usize = 0;
            while j < 16
                invariant
                    painter.wf(),
                    painter.geom() == geom,
                    geom == old(painter).geom(),
                    fb0 == old(painter).fb(),
                    painter.fb().len() == fb0.len(),
                    fb0.len() == geom.total_bytes(),
                    glyph_lookup(*font, c as int) == Some(glyph),
                    gw == glyph.width_spec(),
                    i < gw,
                    j <= 16,
                    forall|px: int, py: int, k: int|
                        #[trigger] valid_triple(geom, px, py, k) ==> painter.byte(px, py, k)
                            == if glyph.pixel(px - x, py - y) && (px < x + i || (px == x + i && py
                            < y + j)) && px < geom.width && py < geom.height
                            && !color.is_transparent() && k < 3 {
                            channel_value(geom.pixel_format, color, k)
                        } else {
                            fb0[byte_index(geom, px, py, k)]
                        },
                decreases 16 - j,
            {
                if glyph.get_pixel(i, j) {
                    let sx = (x as u64) + (i as u64);
                    let sy = (y as u64) + (j as u64);
                    if sx < (geom.width as u64) && sy < (geom.height as u64) && color.a != 0 {
                        let ghost fbp = painter.fb();
                        painter.put_pixel(sx as usize, sy as usize, color);
                        proof {
                            lemma_with_pixel_bytes(fbp, geom, sx as int, sy as int, color);
                        }
                    }
                }
                j += 1;
            }
            i += 1;
        }
        return gw as u32;
    }
    return 0;
}

/// Draws a string left to right from `(x, y)`, accumulating each
/// character's advance width; characters without a glyph contribute
/// nothing.
pub fn draw_str(painter: &mut Painter, font: &Font, x: u32, y: u32, s: &str, color: Color)
    requires
        old(painter).wf(),
        font.wf(),
        s@.len() <= u32::MAX,
    ensures
        final(painter).wf(),
        final(painter).geom() == old(painter).geom(),
        final(painter).fb().len() == old(painter).fb().len(),
        forall|px: int, py: int, k: int|
            #[trigger] valid_triple(old(painter).geom(), px, py, k) ==> final(painter).byte(
                px,
                py,
                k,
            ) == if (match column_char(*font, s@, x as int, px) {
                Some((g, gx)) => g.pixel(gx, py - y),
                None => false,
            }) && px < old(painter).geom().width && py < old(painter).geom().height
                && !color.is_transparent() && k < 3 {
                channel_value(old(painter).geom().pixel_format, color, k)
            } else {
                old(painter).byte(px, py, k)
            },
{
    let geom = painter.info_copy();
    let ghost fb0 = painter.fb();
    let len = s.unicode_len();
    let mut pen: u64 = x as u64;
    let mut idx: usize = 0;
    while idx < len
        invariant
            painter.wf(),
            painter.geom() == geom,
            geom == old(painter).geom(),
            fb0 == old(painter).fb(),
            painter.fb().len() == fb0.len(),
            fb0.len() == geom.total_bytes(),
            font.wf(),
            len == s@.len(),
            len <= u32::MAX,
            idx <= len,
            pen == x + advance_of(*font, s@.take(idx as int)),
            pen <= x + 16 * idx,
            forall|px: int, py: int, k: int|
                #[trigger] valid_triple(geom, px, py, k) ==> painter.byte(px, py, k) == if (
                match column_char(*font, s@.take(idx as int), x as int, px) {
                    Some((g, gx)) => g.pixel(gx, py - y),
                    None => false,
                }) && px < geom.width && py < geom.height && !color.is_transparent() && k < 3 {
                    channel_value(geom.pixel_format, color, k)
                } else {
                    fb0[byte_index(geom, px, py, k)]
                },
        decreases len - idx,
    {
        let c = s.get_char(idx);
        proof {
            assert(s@.take(idx as int).push(c) =~= s@.take(idx as int + 1));
            lemma_advance_snoc(*font, s@.take(idx as int), c);
        }
        let adv: u32;
        if pen <= (u32::MAX as u64) {
            adv = draw_char(painter, font, pen as u32, y, c, color);
        } else {
            adv = get_char_width(font, c);
        }
        proof {
            assert forall|px: int, py: int, k: int| #[trigger] valid_triple(
                geom,
                px,
                py,
                k,
            ) implies painter.byte(px, py, k) == if (match column_char(
                *font,
                s@.take(idx as int + 1),
                x as int,
                px,
            ) {
                Some((g, gx)) => g.pixel(gx, py - y),
                None => false,
            }) && px < geom.width && py < geom.height && !color.is_transparent() && k < 3 {
                channel_value(geom.pixel_format, color, k)
            } else {
                fb0[byte_index(geom, px, py, k)]
            } by {
                lemma_column_char_snoc(*font, s@.take(idx as int), c, x as int, px);
                lemma_column_char_range(*font, s@.take(idx as int), x as int, px);
            }
        }
        pen = pen + (adv as u64);
        idx += 1;
    }
    proof {
        assert(s@.take(len as int) =~= s@);
    }
}

} // verus!
