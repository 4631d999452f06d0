use vstd::prelude::*;

use crate::color::Color;
use crate::graphics::DrawError;

verus! {

/// An independently owned rectangular off-screen surface. A layer has a
/// position on screen, a stacking order (`z_index`, higher renders on top)
/// and a `width * height` row-major buffer of colors it draws into.
pub struct Layer {
    framebuffer: Vec<Color>,
    width: u32,
    height: u32,
    x_pos: u32,
    y_pos: u32,
    z_index: u32,
    hidden: bool,
    index: u32,
}

/// In-range layer-local coordinates for a `w x h` buffer.
pub open spec fn cell_in(w: int, h: int, a: int, b: int) -> bool {
    &&& 0 <= a < w
    &&& 0 <= b < h
}

/// The cell offset of in-range layer coordinates lies inside the buffer.
pub proof fn lemma_cell_bounds(w: int, h: int, x: int, y: int)
    requires
        0 <= x < w,
        0 <= y < h,
    ensures
        0 <= y * w + x < w * h,
{
    assert(0 <= y * w + x < w * h) by (nonlinear_arith)
        requires
            0 <= x < w,
            0 <= y < h,
    ;
}

/// Distinct in-range layer coordinates address distinct buffer cells.
pub proof fn lemma_cell_injective(w: int, x1: int, y1: int, x2: int, y2: int)
    requires
        0 <= x1 < w,
        0 <= x2 < w,
        y1 * w + x1 == y2 * w + x2,
    ensures
        x1 == x2,
        y1 == y2,
{
    assert(x1 == x2 && y1 == y2) by (nonlinear_arith)
        requires
            y1 * w + x1 == y2 * w + x2,
            0 <= x1 < w,
            0 <= x2 < w,
    ;
}

impl Layer {
    /// The layer's pixel buffer, row-major.
    pub closed spec fn pixels(self) -> Seq<Color> {
        self.framebuffer@
    }

    pub closed spec fn w(self) -> int {
        self.width as int
    }

    pub closed spec fn h(self) -> int {
        self.height as int
    }

    pub closed spec fn x(self) -> int {
        self.x_pos as int
    }

    pub closed spec fn y(self) -> int {
        self.y_pos as int
    }

    pub closed spec fn z(self) -> int {
        self.z_index as int
    }

    pub closed spec fn hidden(self) -> bool {
        self.hidden
    }

    /// The layer's cached position in the controller's ordered sequence,
    /// valid only while the layer is registered.
    pub closed spec fn slot(self) -> int {
        self.index as int
    }

    /// The layer's invariant: the buffer holds exactly `width * height`
    /// colors.
    pub open spec fn wf(self) -> bool {
        self.pixels().len() == self.w() * self.h()
    }

    /// Color stored at in-range layer-local coordinates.
    pub open spec fn pixel(self, lx: int, ly: int) -> Color {
        self.pixels()[ly * self.w() + lx]
    }

    /// Everything but the pixel buffer: geometry, position, stacking order,
    /// visibility and the cached controller slot.
    pub open spec fn same_meta(self, other: Layer) -> bool {
        &&& self.w() == other.w()
        &&& self.h() == other.h()
        &&& self.x() == other.x()
        &&& self.y() == other.y()
        &&& self.z() == other.z()
        &&& self.hidden() == other.hidden()
        &&& self.slot() == other.slot()
    }

    /// Equal in everything but the cached controller slot.
    pub open spec fn same_content(self, other: Layer) -> bool {
        &&& self.pixels() == other.pixels()
        &&& self.w() == other.w()
        &&& self.h() == other.h()
        &&& self.x() == other.x()
        &&& self.y() == other.y()
        &&& self.z() == other.z()
        &&& self.hidden() == other.hidden()
    }

    /// Creates a visible layer whose buffer is filled with the fully
    /// transparent color.
    pub fn new(width: u32, height: u32, x_pos: u32, y_pos: u32, z_index: u32) -> (l: Layer)
        requires
            width * height <= usize::MAX,
        ensures
            l.wf(),
            l.w() == width,
            l.h() == height,
            l.x() == x_pos,
            l.y() == y_pos,
            l.z() == z_index,
            !l.hidden(),
            l.slot() == 0,
            forall|i: int|
                0 <= i < l.pixels().len() ==> (#[trigger] l.pixels()[i]) == (Color {
                    r: 0,
                    g: 0,
                    b: 0,
                    a: 0,
                }),
    {
        let total = (width as usize) * (height as usize);
        let mut framebuffer: Vec<Color> = Vec::new();
        let mut i: usize = 0;
        while i < total
            invariant
                i <= total,
                framebuffer@.len() == i,
                forall|j: int|
                    0 <= j < i ==> (#[trigger] framebuffer@[j]) == (Color {
                        r: 0,
                        g: 0,
                        b: 0,
                        a: 0,
                    }),
            decreases total - i,
        {
            framebuffer.push(Color { r: 0, g: 0, b: 0, a: 0 });
            i += 1;
        }
        Layer { framebuffer, width, height, x_pos, y_pos, z_index, hidden: false, index: 0 }
    }

    pub fn is_hidden(&self) -> (r: bool)
        ensures
            r == self.hidden(),
    {
        self.hidden
    }

    /// Hides or shows the layer. A hidden layer is excluded from both full
    /// and partial composition but stays registered and keeps its buffer.
    pub fn set_hidden(&mut self, hidden: bool)
        ensures
            final(self).pixels() == old(self).pixels(),
            final(self).w() == old(self).w(),
            final(self).h() == old(self).h(),
            final(self).x() == old(self).x(),
            final(self).y() == old(self).y(),
            final(self).z() == old(self).z(),
            final(self).slot() == old(self).slot(),
            final(self).hidden() == hidden,
    {
        self.hidden = hidden;
    }

    pub(crate) fn set_z_index(&mut self, z_index: u32)
        ensures
            final(self).pixels() == old(self).pixels(),
            final(self).w() == old(self).w(),
            final(self).h() == old(self).h(),
            final(self).x() == old(self).x(),
            final(self).y() == old(self).y(),
            final(self).hidden() == old(self).hidden(),
            final(self).slot() == old(self).slot(),
            final(self).z() == z_index,
    {
        self.z_index = z_index;
    }

    /// Moves the layer. Pure metadata mutation: compositing afterwards is
    /// the caller's responsibility.
    pub fn set_pos(&mut self, x_pos: u32, y_pos: u32)
        ensures
            final(self).pixels() == old(self).pixels(),
            final(self).w() == old(self).w(),
            final(self).h() == old(self).h(),
            final(self).z() == old(self).z(),
            final(self).hidden() == old(self).hidden(),
            final(self).slot() == old(self).slot(),
            final(self).x() == x_pos,
            final(self).y() == y_pos,
    {
        self.x_pos = x_pos;
        self.y_pos = y_pos;
    }

    pub fn get_pos_usize(&self) -> (r: (usize, usize))
        ensures
            r.0 == self.x(),
            r.1 == self.y(),
    {
        (self.x_pos as usize, self.y_pos as usize)
    }

    pub fn get_width(&self) -> (w: u32)
        ensures
            w == self.w(),
    {
        self.width
    }

    pub fn get_height(&self) -> (h: u32)
        ensures
            h == self.h(),
    {
        self.height
    }

    pub fn get_z_index(&self) -> (z: u32)
        ensures
            z == self.z(),
    {
        self.z_index
    }

    /// The layer's cached position in the controller's sequence, valid
    /// only while the layer is registered.
    pub fn get_slot(&self) -> (s: u32)
        ensures
            s == self.slot(),
    {
        self.index
    }

    pub fn get_framebuffer(&self) -> (r: &[Color])
        ensures
            r@ == self.pixels(),
    {
        self.framebuffer.as_slice()
    }

    /// Writes one cell of the layer's own buffer, in range.
    fn put_cell(&mut self, lx: usize, ly: usize, color: Color)
        requires
            old(self).wf(),
            lx < old(self).w(),
            ly < old(self).h(),
        ensures
            final(self).wf(),
            final(self).same_meta(*old(self)),
            final(self).pixels() == old(self).pixels().update(
                ly * old(self).w() + lx,
                color,
            ),
    {
        let n = self.framebuffer.len();
        proof {
            lemma_cell_bounds(self.w(), self.h(), lx as int, ly as int);
        }
        let idx = ly * (self.width as usize) + lx;
        self.framebuffer[idx] = color;
    }

    /// Draws one pixel into the layer's buffer. Identical clipping and
    /// transparency semantics to the painter's `draw_pixel`: out-of-range
    /// coordinates and transparent colors are silently dropped.
    pub fn draw_pixel(&mut self, x: u32, y: u32, color: Color)
        requires
            old(self).wf(),
        ensures
            final(self).wf(),
            final(self).same_meta(*old(self)),
            x < old(self).w() && y < old(self).h() && !color.is_transparent() ==> final(self).pixels() == old(self).pixels().update(y * old(self).w() + x, color),
            !(x < old(self).w() && y < old(self).h() && !color.is_transparent()) ==> final(self).pixels() == old(self).pixels(),
    {
        if x >= self.width || y >= self.height || color.a == 0 {
            return ;
        }
        self.put_cell(x as usize, y as usize, color);
    }

    /// Fills a rectangle of the layer's buffer, pixel by pixel, with the
    /// painter's clipping and transparency semantics: out-of-range cells
    /// are dropped and a transparent color draws nothing.
    pub fn draw_rect(&mut self, x: u32, y: u32, width: u32, height: u32, color: Color)
        requires
            old(self).wf(),
        ensures
            final(self).wf(),
            final(self).same_meta(*old(self)),
            final(self).pixels().len() == old(self).pixels().len(),
            color.is_transparent() ==> final(self).pixels() == old(self).pixels(),
            !color.is_transparent() ==> forall|lx: int, ly: int|
                #[trigger] cell_in(old(self).w(), old(self).h(), lx, ly) ==> final(self).pixel(
                    lx,
                    ly,
                ) == if x <= lx < x + width && y <= ly < y + height {
                    color
                } else {
                    old(self).pixel(lx, ly)
                },
    {
        if color.a == 0 {
            return ;
        }
        let ghost pix0 = self.pixels();
        let w = self.width as usize;
        let h = self.height as usize;
        let x0 = x as usize;
        let y0 = y as usize;
        let xe = if x0 >= w {
            w
        } else if (width as usize) < w - x0 {
            x0 + width as usize
        } else {
            w
        };
        let ye = if y0 >= h {
            h
        } else if (height as usize) < h - y0 {
            y0 + height as usize
        } else {
            h
        };
        let xs = if x0 > xe {
            xe
        } else {
            x0
        };
        let ys = if y0 > ye {
            ye
        } else {
            y0
        };
        let mut ly = ys;
        while ly < ye
            invariant
                self.wf(),
                self.same_meta(*old(self)),
                self.w() == w,
                self.h() == h,
                self.pixels().len() == pix0.len(),
                pix0.len() == w * h,
                xs <= xe <= w,
                ys <= ly <= ye <= h,
                forall|a: int, b: int|
                    #[trigger] cell_in(w as int, h as int, a, b) ==> self.pixel(a, b) == if xs <= a
                        < xe && ys <= b < ly {
                        color
                    } else {
                        pix0[b * (w as int) + a]
                    },
            decreases ye - ly,
        {
            let mut lx = xs;
            while lx < xe
                invariant
                    self.wf(),
                    self.same_meta(*old(self)),
                    self.w() == w,
                    self.h() == h,
                    self.pixels().len() == pix0.len(),
                    pix0.len() == w * h,
                    xs <= lx <= xe <= w,
                    ys <= ly < ye <= h,
                    forall|a: int, b: int|
                        #[trigger] cell_in(w as int, h as int, a, b) ==> self.pixel(a, b) == if (xs
                            <= a < xe && ys <= b < ly) || (b == ly && xs <= a < lx) {
                            color
                        } else {
                            pix0[b * (w as int) + a]
                        },
                decreases xe - lx,
            {
                let ghost pix_prev = self.pixels();
                self.put_cell(lx, ly, color);
                proof {
                    lemma_cell_bounds(w as int, h as int, lx as int, ly as int);
                    assert forall|a: int, b: int| #[trigger] cell_in(
                        w as int,
                        h as int,
                        a,
                        b,
                    ) implies self.pixel(a, b) == if (xs <= a < xe && ys <= b < ly) || (b == ly && xs
                        <= a < lx + 1) {
                        color
                    } else {
                        pix0[b * (w as int) + a]
                    } by {
                        lemma_cell_bounds(w as int, h as int, a, b);
                        if b * (w as int) + a == ly * (w as int) + lx {
                            lemma_cell_injective(w as int, a, b, lx as int, ly as int);
                        }
                    }
                }
                lx += 1;
            }
            ly += 1;
        }
    }

    /// Copies a `width * height` row-major bitmap to position `(x_pos,
    /// y_pos)` of the layer, pixel by pixel, honoring transparency and
    /// dropping out-of-range cells. When the bitmap does not hold exactly
    /// `width * height` colors the operation is aborted, nothing is drawn,
    /// and the mismatch is reported.
    pub fn draw_bitmap(
        &mut self,
        x_pos: u32,
        y_pos: u32,
        width: u32,
        height: u32,
        bitmap: &[Color],
    ) -> (r: Result<(), DrawError>)
        requires
            old(self).wf(),
        ensures
            final(self).wf(),
            final(self).same_meta(*old(self)),
            final(self).pixels().len() == old(self).pixels().len(),
            r is Err <==> bitmap@.len() != width * height,
            r is Err ==> r == Err::<(), DrawError>(DrawError::BitmapSizeMismatch) && final(self).pixels() == old(self).pixels(),
            r is Ok ==> forall|lx: int, ly: int|
                #[trigger] cell_in(old(self).w(), old(self).h(), lx, ly) ==> final(self).pixel(
                    lx,
                    ly,
                ) == if x_pos <= lx < x_pos + width && y_pos <= ly < y_pos + height && !bitmap@[(ly
                    - y_pos) * width + (lx - x_pos)].is_transparent() {
                    bitmap@[(ly - y_pos) * width + (lx - x_pos)]
                } else {
                    old(self).pixel(lx, ly)
                },
    {
        proof {
            assert((width as int) * (height as int) <= 0xffff_fffe_0000_0001int)
                by (nonlinear_arith)
                requires
                    width <= 0xffff_ffffu32,
                    height <= 0xffff_ffffu32,
            ;
        }
        if (bitmap.len() as u64) != (width as u64) * (height as u64) {
            return Err(DrawError::BitmapSizeMismatch);
        }
        let bl = bitmap.len();
        let ghost pix0 = self.pixels();
        let w = self.width as usize;
        let h = self.height as usize;
        let mut j: usize = 0;
        while j < height as usize
            invariant
                self.wf(),
                self.same_meta(*old(self)),
                self.w() == w,
                self.h() == h,
                self.pixels().len() == pix0.len(),
                pix0.len() == w * h,
                j <= height,
                bitmap@.len() == width * height,
                bitmap@.len() <= usize::MAX,
                forall|a: int, b: int|
                    #[trigger] cell_in(w as int, h as int, a, b) ==> self.pixel(a, b) == if x_pos
                        <= a < x_pos + width && y_pos <= b < y_pos + j && !bitmap@[(b - y_pos)
                        * width + (
                    a - x_pos)].is_transparent() {
                        bitmap@[(b - y_pos) * width + (a - x_pos)]
                    } else {
                        pix0[b * (w as int) + a]
                    },
            decreases height - j,
        {
            let mut i: usize = 0;
            while i < width as usize
                invariant
                    self.wf(),
                    self.same_meta(*old(self)),
                    self.w() == w,
                    self.h() == h,
                    self.pixels().len() == pix0.len(),
                    pix0.len() == w * h,
                    j < height,
                    i <= width,
                    bitmap@.len() == width * height,
                    bitmap@.len() <= usize::MAX,
                    forall|a: int, b: int|
                        #[trigger] cell_in(w as int, h as int, a, b) ==> self.pixel(a, b) == if (x_pos <= a
                            < x_pos + width && y_pos <= b < y_pos + j && !bitmap@[(b - y_pos) * width
                            + (a - x_pos)].is_transparent()) || (b == y_pos + j && x_pos <= a
                            < x_pos + i && !bitmap@[(b - y_pos) * width + (a
                            - x_pos)].is_transparent()) {
                            bitmap@[(b - y_pos) * width + (a - x_pos)]
                        } else {
                            pix0[b * (w as int) + a]
                        },
                decreases width - i,
            {
                proof {
                    lemma_cell_bounds(width as int, height as int, i as int, j as int);
                }
                let c = bitmap[j * (width as usize) + i];
                let lx_wide = (x_pos as u64) + (i as u64);
                let ly_wide = (y_pos as u64) + (j as u64);
                let ghost pix_prev = self.pixels();
                if lx_wide < (w as u64) && ly_wide < (h as u64) && c.a != 0 {
                    let lx = lx_wide as usize;
                    let ly = ly_wide as usize;
                    self.put_cell(lx, ly, c);
                    proof {
                        lemma_cell_bounds(w as int, h as int, lx as int, ly as int);
                        assert forall|a: int, b: int| #[trigger] cell_in(
                            w as int,
                            h as int,
                            a,
                            b,
                        ) implies self.pixel(a, b) == if (a, b) == (lx as int, ly as int) {
                            c
                        } else {
                            pix_prev[b * (w as int) + a]
                        } by {
                            lemma_cell_bounds(w as int, h as int, a, b);
                            if b * (w as int) + a == (ly as int) * (w as int) + lx {
                                lemma_cell_injective(w as int, a, b, lx as int, ly as int);
                            }
                        }
                    }
                }
                i += 1;
            }
            j += 1;
        }
        Ok(())
    }
}

/// An ordered collection of layers, kept ascending by `z_index`. Among
/// layers with equal `z_index`, the one registered earlier comes first:
/// insertion places a new layer after every existing layer whose `z_index`
/// is not greater. The controller maintains, at all times, that the layer
/// stored at position `i` has its cached slot equal to `i`.
pub struct LayerController {
    layers: Vec<Layer>,
}

impl LayerController {
    /// The registered layers, bottom (drawn first) to top.
    pub closed spec fn layers(self) -> Seq<Layer> {
        self.layers@
    }

    /// The controller's invariant: every layer well formed, every cached
    /// slot equal to the layer's position, and the sequence sorted
    /// ascending by `z_index`.
    pub open spec fn wf(self) -> bool {
        &&& self.layers().len() <= u32::MAX
        &&& forall|i: int| 0 <= i < self.layers().len() ==> (#[trigger] self.layers()[i]).wf()
        &&& forall|i: int|
            0 <= i < self.layers().len() ==> (#[trigger] self.layers()[i]).slot() == i
        &&& forall|i: int, j: int|
            0 <= i < j < self.layers().len() ==> #[trigger] self.layers()[i].z()
                <= #[trigger] self.layers()[j].z()
    }

    /// Creates an empty controller.
    pub fn new() -> (c: LayerController)
        ensures
            c.wf(),
            c.layers().len() == 0,
    {
        LayerController { layers: Vec::new() }
    }

    pub fn get_layer_count(&self) -> (n: usize)
        ensures
            n == self.layers().len(),
    {
        self.layers.len()
    }

    /// Shared access to the layer at a slot.
    pub fn get_layer(&self, index: usize) -> (l: &Layer)
        requires
            index < self.layers().len(),
        ensures
            *l == self.layers()[index as int],
    {
        &self.layers[index]
    }

    /// Exclusive access to the layer at a slot, for drawing into it. The
    /// caller must leave the layer's dimensions, stacking order and cached
    /// slot unchanged, so only the re-established invariant is stated.
    fn refresh_slots(&mut self, from: usize)
        requires
            from <= old(self).layers().len(),
            old(self).layers().len() <= u32::MAX,
        ensures
            final(self).layers().len() == old(self).layers().len(),
            forall|i: int|
                0 <= i < from ==> final(self).layers()[i] == old(self).layers()[i],
            forall|i: int|
                from <= i < old(self).layers().len() ==> (#[trigger] final(self).layers()[
                    i
                ]).same_content(old(self).layers()[i]),
            forall|i: int|
                from <= i < old(self).layers().len() ==> (#[trigger] final(self).layers()[
                    i
                ]).slot() == i,
    {
        let n = self.layers.len();
        let mut j = from;
        while j < n
            invariant
                from <= j <= n,
                n == self.layers().len(),
                n == old(self).layers().len(),
                n <= u32::MAX,
                forall|i: int| 0 <= i < from ==> self.layers()[i] == old(self).layers()[i],
                forall|i: int|
                    j <= i < n ==> self.layers()[i] == old(self).layers()[i],
                forall|i: int|
                    from <= i < j ==> (#[trigger] self.layers()[i]).same_content(
                        old(self).layers()[i],
                    ),
                forall|i: int|
                    from <= i < j ==> (#[trigger] self.layers()[i]).slot() == i,
            decreases n - j,
        {
            self.layers[j].index = j as u32;
            j += 1;
        }
    }

    /// Registers a layer: a binary search finds the first position whose
    /// existing `z_index` is greater than the new layer's (so the new layer
    /// lands after every existing equal key), the layer is inserted there,
    /// and the cached slots of it and of every shifted layer are rewritten.
    /// Returns the slot the layer was placed at.
    pub fn add_layer(&mut self, layer: Layer) -> (slot: usize)
        requires
            old(self).wf(),
            layer.wf(),
            old(self).layers().len() < u32::MAX,
        ensures
            final(self).wf(),
            final(self).layers().len() == old(self).layers().len() + 1,
            slot <= old(self).layers().len(),
            forall|i: int| 0 <= i < slot ==> final(self).layers()[i] == old(self).layers()[i],
            forall|i: int| 0 <= i < slot ==> old(self).layers()[i].z() <= layer.z(),
            forall|i: int|
                slot <= i < old(self).layers().len() ==> old(self).layers()[i].z() > layer.z(),
            final(self).layers()[slot as int].same_content(layer),
            final(self).layers()[slot as int].slot() == slot,
            forall|i: int|
                slot < i <= old(self).layers().len() ==> (#[trigger] final(self).layers()[
                    i
                ]).same_content(old(self).layers()[i - 1]) && final(self).layers()[i].slot() == i,
    {
        let ghost layers0 = self.layers();
        let mut left: usize = 0;
        let mut right: usize = self.layers.len();
        while left < right
            invariant
                self.layers() == layers0,
                self.wf(),
                left <= right <= layers0.len(),
                forall|i: int| 0 <= i < left ==> layers0[i].z() <= layer.z(),
                forall|i: int| right <= i < layers0.len() ==> layers0[i].z() > layer.z(),
            decreases right - left,
        {
            let mid = left + (right - left) / 2;
            if self.layers[mid].z_index > layer.z_index {
                proof {
                    assert forall|i: int| mid <= i < layers0.len() implies layers0[i].z()
                        > layer.z() by {
                        if i != mid {
                            assert(self.layers()[mid as int].z() <= self.layers()[i].z());
                        }
                    }
                }
                right = mid;
            } else {
                proof {
                    assert forall|i: int| 0 <= i < mid + 1 implies layers0[i].z() <= layer.z() by {
                        if i != mid {
                            assert(self.layers()[i].z() <= self.layers()[mid as int].z());
                        }
                    }
                }
                left = mid + 1;
            }
        }
        self.layers.insert(left, layer);
        self.refresh_slots(left);
        proof {
            let n0 = layers0.len() as int;
            let s = left as int;
            assert forall|i: int, j: int| 0 <= i < j < self.layers().len() implies #[trigger] self.layers()[i].z() <= #[trigger] self.layers()[j].z() by {
                let zi = if i < s {
                    layers0[i].z()
                } else if i == s {
                    layer.z()
                } else {
                    layers0[i - 1].z()
                };
                assert(self.layers()[i].z() == zi);
                let zj = if j < s {
                    layers0[j].z()
                } else if j == s {
                    layer.z()
                } else {
                    layers0[j - 1].z()
                };
                assert(self.layers()[j].z() == zj);
            }
        }
        left
    }

    /// Moves the registered layer at a slot to a new screen position.
    /// Pure metadata mutation, as a holder of the layer would perform it;
    /// re-compositing afterwards is the caller's responsibility.
    pub fn set_layer_pos(&mut self, index: usize, x_pos: u32, y_pos: u32)
        requires
            old(self).wf(),
            index < old(self).layers().len(),
        ensures
            final(self).wf(),
            final(self).layers().len() == old(self).layers().len(),
            forall|i: int|
                0 <= i < old(self).layers().len() && i != index ==> final(self).layers()[i] == old(
                    self,
                ).layers()[i],
            final(self).layers()[index as int].pixels() == old(self).layers()[
                index as int
            ].pixels(),
            final(self).layers()[index as int].w() == old(self).layers()[index as int].w(),
            final(self).layers()[index as int].h() == old(self).layers()[index as int].h(),
            final(self).layers()[index as int].z() == old(self).layers()[index as int].z(),
            final(self).layers()[index as int].hidden() == old(self).layers()[
                index as int
            ].hidden(),
            final(self).layers()[index as int].slot() == old(self).layers()[index as int].slot(),
            final(self).layers()[index as int].x() == x_pos,
            final(self).layers()[index as int].y() == y_pos,
    {
        self.layers[index].x_pos = x_pos;
        self.layers[index].y_pos = y_pos;
        proof {
            assert forall|i: int| 0 <= i < self.layers().len() implies (#[trigger] self.layers()[
                i
            ]).wf() && self.layers()[i].slot() == i by {
                assert(old(self).layers()[i].wf());
                assert(old(self).layers()[i].slot() == i);
            }
            assert forall|i: int, j: int| 0 <= i < j < self.layers().len() implies #[trigger] self.layers()[i].z() <= #[trigger] self.layers()[j].z() by {
                assert(old(self).layers()[i].z() <= old(self).layers()[j].z());
            }
        }
    }

    /// Unregisters the layer at a slot and returns it to the caller;
    /// every remaining layer's cached slot is shifted down to match its
    /// new position.
    pub fn remove_layer(&mut self, index: usize) -> (layer: Layer)
        requires
            old(self).wf(),
            index < old(self).layers().len(),
        ensures
            final(self).wf(),
            final(self).layers().len() == old(self).layers().len() - 1,
            layer == old(self).layers()[index as int],
            forall|i: int| 0 <= i < index ==> final(self).layers()[i] == old(self).layers()[i],
            forall|i: int|
                index <= i < old(self).layers().len() - 1 ==> (#[trigger] final(self).layers()[
                    i
                ]).same_content(old(self).layers()[i + 1]) && final(self).layers()[i].slot() == i,
    {
        let layer = self.layers.remove(index);
        self.refresh_slots(index);
        layer
    }

    /// Restacks the layer at a slot: equivalent to unregistering it,
    /// changing its `z_index`, and registering it again — never an
    /// in-place re-sort, so the insertion-order tie-break is preserved and
    /// the layer lands after every layer whose `z_index` is not greater
    /// than the new one. Returns the new slot.
    pub fn set_layer_z_index(&mut self, index: usize, z_index: u32) -> (slot: usize)
        requires
            old(self).wf(),
            index < old(self).layers().len(),
        ensures
            final(self).wf(),
            final(self).layers().len() == old(self).layers().len(),
            slot < old(self).layers().len(),
            forall|i: int|
                0 <= i < slot ==> (#[trigger] final(self).layers()[i]).same_content(
                    old(self).layers()[if i < index { i } else { i + 1 }],
                ) && final(self).layers()[i].slot() == i,
            forall|i: int|
                slot < i < old(self).layers().len() ==> (#[trigger] final(self).layers()[
                    i
                ]).same_content(old(self).layers()[if i - 1 < index { i - 1 } else { i }]) && final(self).layers()[i].slot() == i,
            forall|i: int|
                0 <= i < slot && i < index ==> (#[trigger] old(self).layers()[i]).z() <= z_index,
            forall|i: int|
                0 <= i < slot && index <= i ==> (#[trigger] old(self).layers()[i + 1]).z() <= z_index,
            forall|i: int|
                slot <= i < old(self).layers().len() - 1 && i < index ==> (
                #[trigger] old(self).layers()[i]).z() > z_index,
            forall|i: int|
                slot <= i < old(self).layers().len() - 1 && index <= i ==> (
                #[trigger] old(self).layers()[i + 1]).z() > z_index,
            final(self).layers()[slot as int].pixels() == old(self).layers()[index as int].pixels(),
            final(self).layers()[slot as int].w() == old(self).layers()[index as int].w(),
            final(self).layers()[slot as int].h() == old(self).layers()[index as int].h(),
            final(self).layers()[slot as int].x() == old(self).layers()[index as int].x(),
            final(self).layers()[slot as int].y() == old(self).layers()[index as int].y(),
            final(self).layers()[slot as int].hidden() == old(self).layers()[index as int].hidden(),
            final(self).layers()[slot as int].z() == z_index,
            final(self).layers()[slot as int].slot() == slot,
    {
        let ghost orig = old(self).layers();
        let mut layer = self.remove_layer(index);
        let ghost mid = self.layers();
        layer.set_z_index(z_index);
        let slot = self.add_layer(layer);
        proof {
            assert forall|i: int| 0 <= i < slot && index <= i implies (#[trigger] orig[i + 1]).z()
                <= z_index by {
                assert(mid[i].same_content(orig[i + 1]));
                assert(mid[i].z() <= z_index);
            }
            assert forall|i: int|
                slot <= i < orig.len() - 1 && index <= i implies (#[trigger] orig[i + 1]).z()
                > z_index by {
                assert(mid[i].same_content(orig[i + 1]));
                assert(mid[i].z() > z_index);
            }
        }
        slot
    }
}

} // verus!
