use vstd::prelude::*;

use crate::color::Color;
use crate::geometry::{
    byte_index, channel_value, lemma_with_pixel_bytes, valid_triple, FramebufferGeometry,
};
use crate::graphics::Painter;
use crate::layer::{cell_in, Layer, LayerController};

verus! {

/// True when layer `l` paints the screen pixel `(x, y)`: the layer is
/// visible, the pixel lies in its footprint, and the layer's own color
/// there is not transparent.
pub open spec fn layer_paints(l: Layer, x: int, y: int) -> bool {
    &&& !l.hidden()
    &&& l.x() <= x < l.x() + l.w()
    &&& l.y() <= y < l.y() + l.h()
    &&& !l.pixel(x - l.x(), y - l.y()).is_transparent()
}

/// The color layer `l` holds for the screen pixel `(x, y)` it covers.
pub open spec fn layer_color(l: Layer, x: int, y: int) -> Color {
    l.pixel(x - l.x(), y - l.y())
}

/// The painter's-algorithm composition of a stack of layers at a screen
/// pixel: the color of the topmost (last) layer that paints the pixel, or
/// `None` when no layer does.
pub open spec fn composite(layers: Seq<Layer>, x: int, y: int) -> Option<Color>
    decreases layers.len(),
{
    if layers.len() == 0 {
        None
    } else if layer_paints(layers.last(), x, y) {
        Some(layer_color(layers.last(), x, y))
    } else {
        composite(layers.drop_last(), x, y)
    }
}

/// Value of channel byte `k` of the screen pixel `(x, y)` after writing a
/// composite color `c` over a framebuffer whose bytes were `fb`: the
/// color's channel for a painted, in-bounds pixel; the prior byte
/// everywhere else.
pub open spec fn composite_byte(
    fb: Seq<u8>,
    g: FramebufferGeometry,
    c: Option<Color>,
    x: int,
    y: int,
    k: int,
) -> u8 {
    match c {
        Some(color) => if x < g.width && k < 3 {
            channel_value(g.pixel_format, color, k)
        } else {
            fb[byte_index(g, x, y, k)]
        },
        None => fb[byte_index(g, x, y, k)],
    }
}

/// Value of channel byte `k` of the screen pixel `(x, y)` after
/// compositing `layers` over a framebuffer whose bytes were `fb`.
pub open spec fn render_byte(
    fb: Seq<u8>,
    g: FramebufferGeometry,
    layers: Seq<Layer>,
    x: int,
    y: int,
    k: int,
) -> u8 {
    composite_byte(fb, g, composite(layers, x, y), x, y, k)
}

/// True when the screen pixel `(x, y)` lies in the rectangular damage
/// region at `(rx, ry)` of size `rw x rh`.
pub open spec fn in_region(rx: int, ry: int, rw: int, rh: int, x: int, y: int) -> bool {
    &&& rx <= x < rx + rw
    &&& ry <= y < ry + rh
}

/// Splitting a stack: the composite of the whole stack is the composite of
/// the upper part, unless that paints nothing, in which case it is the
/// composite of the lower part.
pub proof fn lemma_composite_append(a: Seq<Layer>, b: Seq<Layer>, x: int, y: int)
    ensures
        composite(a + b, x, y) == if composite(b, x, y) is Some {
            composite(b, x, y)
        } else {
            composite(a, x, y)
        },
    decreases b.len(),
{
    if b.len() == 0 {
        assert(a + b =~= a);
    } else {
        assert((a + b).last() == b.last());
        assert((a + b).drop_last() =~= a + b.drop_last());
        lemma_composite_append(a, b.drop_last(), x, y);
    }
}

/// Extending a prefix of the stack upward by one layer.
pub proof fn lemma_composite_take_step(layers: Seq<Layer>, n: int, x: int, y: int)
    requires
        0 <= n < layers.len(),
    ensures
        composite(layers.take(n + 1), x, y) == if layer_paints(layers[n], x, y) {
            Some(layer_color(layers[n], x, y))
        } else {
            composite(layers.take(n), x, y)
        },
{
    assert(layers.take(n + 1).last() == layers[n]);
    assert(layers.take(n + 1).drop_last() =~= layers.take(n));
}

/// Extending a suffix of the stack downward by one layer.
pub proof fn lemma_composite_skip_step(layers: Seq<Layer>, n: int, x: int, y: int)
    requires
        0 <= n < layers.len(),
    ensures
        composite(layers.skip(n), x, y) == if composite(layers.skip(n + 1), x, y) is Some {
            composite(layers.skip(n + 1), x, y)
        } else if layer_paints(layers[n], x, y) {
            Some(layer_color(layers[n], x, y))
        } else {
            None
        },
{
    let single = seq![layers[n]];
    assert(layers.skip(n) =~= single + layers.skip(n + 1));
    lemma_composite_append(single, layers.skip(n + 1), x, y);
    assert(single.last() == layers[n]);
    assert(single.drop_last() =~= Seq::<Layer>::empty());
    assert(composite(Seq::<Layer>::empty(), x, y) is None);
    if !layer_paints(layers[n], x, y) {
        assert(composite(single, x, y) == composite(single.drop_last(), x, y));
    }
}

/// Number of `true` entries of a sequence of marks.
pub open spec fn count_true(s: Seq<bool>) -> int
    decreases s.len(),
{
    if s.len() == 0 {
        0
    } else {
        count_true(s.drop_last()) + if s.last() {
            1int
        } else {
            0int
        }
    }
}

pub proof fn lemma_count_true_le_len(s: Seq<bool>)
    ensures
        0 <= count_true(s) <= s.len(),
    decreases s.len(),
{
    if s.len() > 0 {
        lemma_count_true_le_len(s.drop_last());
    }
}

/// A mark sequence whose count equals its length is all `true`.
pub proof fn lemma_count_true_all(s: Seq<bool>)
    requires
        count_true(s) == s.len(),
    ensures
        forall|i: int| 0 <= i < s.len() ==> s[i],
    decreases s.len(),
{
    if s.len() > 0 {
        lemma_count_true_le_len(s.drop_last());
        assert(s.last());
        lemma_count_true_all(s.drop_last());
        assert forall|i: int| 0 <= i < s.len() implies s[i] by {
            if i < s.len() - 1 {
                assert(s.drop_last()[i]);
            }
        }
    }
}

/// Setting a `false` mark to `true` raises the count by one.
pub proof fn lemma_count_true_update(s: Seq<bool>, i: int)
    requires
        0 <= i < s.len(),
        !s[i],
    ensures
        count_true(s.update(i, true)) == count_true(s) + 1,
    decreases s.len(),
{
    let t = s.update(i, true);
    if i == s.len() - 1 {
        assert(t.drop_last() =~= s.drop_last());
        assert(t.last());
        assert(!s.last());
    } else {
        assert(t.drop_last() =~= s.drop_last().update(i, true));
        assert(t.last() == s.last());
        lemma_count_true_update(s.drop_last(), i);
    }
}

/// The color a pixel shows while one layer of the stack is being
/// composited top-down: the upper layers' composite when they paint the
/// pixel, else the current layer's color where it paints and has been
/// visited, else nothing yet.
pub open spec fn override_color(
    upper: Option<Color>,
    l: Layer,
    visited: bool,
    x: int,
    y: int,
) -> Option<Color> {
    if upper is Some {
        upper
    } else if visited && layer_paints(l, x, y) {
        Some(layer_color(l, x, y))
    } else {
        None
    }
}

impl Painter {
    /// Draws every covered, in-bounds, non-transparent pixel of one
    /// visible layer over the framebuffer.
    fn blit_layer(&mut self, layer: &Layer)
        requires
            old(self).wf(),
            layer.wf(),
            !layer.hidden(),
        ensures
            final(self).wf(),
            final(self).geom() == old(self).geom(),
            final(self).fb().len() == old(self).fb().len(),
            forall|x: int, y: int, k: int|
                #[trigger] valid_triple(old(self).geom(), x, y, k) ==> final(self).byte(x, y, k)
                    == if layer_paints(*layer, x, y) && x < old(self).geom().width && k < 3 {
                    channel_value(old(self).geom().pixel_format, layer_color(*layer, x, y), k)
                } else {
                    old(self).byte(x, y, k)
                },
    {
        let geom = self.info_copy();
        let ghost fb0 = self.fb();
        let (lx, ly) = layer.get_pos_usize();
        let lw = layer.get_width() as usize;
        let lh = layer.get_height() as usize;
        let fbuf = layer.get_framebuffer();
        let fl = fbuf.len();
        let imax = if lx >= geom.width {
            0
        } else if lw < geom.width - lx {
            lw
        } else {
            geom.width - lx
        };
        let jmax = if ly >= geom.height {
            0
        } else if lh < geom.height - ly {
            lh
        } else {
            geom.height - ly
        };
        let mut j: usize = 0;
        while j < jmax
            invariant
                self.wf(),
                self.geom() == geom,
                self.fb().len() == fb0.len(),
                fb0.len() == geom.total_bytes(),
                layer.wf(),
                !layer.hidden(),
                fbuf@ == layer.pixels(),
                fbuf@.len() <= usize::MAX,
                lx == layer.x(),
                ly == layer.y(),
                lw == layer.w(),
                lh == layer.h(),
                j <= jmax,
                imax <= lw,
                jmax <= lh,
                imax == 0 || lx + imax <= geom.width,
                jmax == 0 || ly + jmax <= geom.height,
                imax == if lx >= geom.width {
                    0int
                } else if lw < geom.width - lx {
                    lw as int
                } else {
                    geom.width - lx
                },
                jmax == if ly >= geom.height {
                    0int
                } else if lh < geom.height - ly {
                    lh as int
                } else {
                    geom.height - ly
                },
                forall|x: int, y: int, k: int|
                    #[trigger] valid_triple(geom, x, y, k) ==> self.byte(x, y, k)
                        == if layer_paints(*layer, x, y) && x < geom.width && y < ly + j && k
                        < 3 {
                        channel_value(geom.pixel_format, layer_color(*layer, x, y), k)
                    } else {
                        fb0[byte_index(geom, x, y, k)]
                    },
            decreases jmax - j,
        {
            let mut i: usize = 0;
            while i < imax
                invariant
                    self.wf(),
                    self.geom() == geom,
                    self.fb().len() == fb0.len(),
                    fb0.len() == geom.total_bytes(),
                    layer.wf(),
                    !layer.hidden(),
                    fbuf@ == layer.pixels(),
                    fbuf@.len() <= usize::MAX,
                    lx == layer.x(),
                    ly == layer.y(),
                    lw == layer.w(),
                    lh == layer.h(),
                    j < jmax,
                    i <= imax,
                    imax <= lw,
                    jmax <= lh,
                    imax == 0 || lx + imax <= geom.width,
                    jmax == 0 || ly + jmax <= geom.height,
                    forall|x: int, y: int, k: int|
                        #[trigger] valid_triple(geom, x, y, k) ==> self.byte(x, y, k)
                            == if layer_paints(*layer, x, y) && x < geom.width && (y < ly + j || (y
                            == ly + j && x < lx + i)) && k < 3 {
                            channel_value(geom.pixel_format, layer_color(*layer, x, y), k)
                        } else {
                            fb0[byte_index(geom, x, y, k)]
                        },
                decreases imax - i,
            {
                proof {
                    crate::layer::lemma_cell_bounds(lw as int, lh as int, i as int, j as int);
                }
                let c = fbuf[j * lw + i];
                if c.a != 0 {
                    let ghost fbp = self.fb();
                    self.put_pixel(lx + i, ly + j, c);
                    proof {
                        lemma_with_pixel_bytes(fbp, geom, (lx + i) as int, (ly + j) as int, c);
                    }
                }
                i += 1;
            }
            j += 1;
        }
    }

    /// Composites every visible registered layer into the framebuffer,
    /// bottom to top (ascending stacking order): for every covered,
    /// non-transparent, in-bounds source pixel the destination pixel is
    /// overwritten, so higher layers win. No blending.
    pub fn layer_controller_render(&mut self, layer_controller: &LayerController)
        requires
            old(self).wf(),
            layer_controller.wf(),
        ensures
            final(self).wf(),
            final(self).geom() == old(self).geom(),
            final(self).fb().len() == old(self).fb().len(),
            forall|x: int, y: int, k: int|
                #[trigger] valid_triple(old(self).geom(), x, y, k) ==> final(self).byte(x, y, k)
                    == render_byte(
                    old(self).fb(),
                    old(self).geom(),
                    layer_controller.layers(),
                    x,
                    y,
                    k,
                ),
    {
        let ghost geom = self.geom();
        let ghost fb0 = self.fb();
        let ghost ls = layer_controller.layers();
        let n = layer_controller.get_layer_count();
        let mut li: usize = 0;
        while li < n
            invariant
                self.wf(),
                self.geom() == geom,
                self.fb().len() == fb0.len(),
                fb0.len() == geom.total_bytes(),
                layer_controller.wf(),
                ls == layer_controller.layers(),
                li <= n,
                n == ls.len(),
                forall|x: int, y: int, k: int|
                    #[trigger] valid_triple(geom, x, y, k) ==> self.byte(x, y, k) == render_byte(
                        fb0,
                        geom,
                        ls.take(li as int),
                        x,
                        y,
                        k,
                    ),
            decreases n - li,
        {
            let layer = layer_controller.get_layer(li);
            let ghost fb_prev = self.fb();
            if !layer.is_hidden() {
                self.blit_layer(layer);
            }
            proof {
                assert forall|x: int, y: int, k: int| #[trigger] valid_triple(geom, x, y, k) implies self.byte(
                    x,
                    y,
                    k,
                ) == render_byte(fb0, geom, ls.take(li + 1), x, y, k) by {
                    lemma_composite_take_step(ls, li as int, x, y);
                    if layer.hidden() {
                        assert(!layer_paints(*layer, x, y));
                    }
                }
            }
            li += 1;
        }
        proof {
            assert(ls.take(n as int) =~= ls);
        }
    }

    /// Composites only the rectangular damage region at `(render_x,
    /// render_y)` of size `render_width x render_height`, visiting layers
    /// top to bottom with a per-region-pixel "already painted" bitmap and a
    /// painted-pixel counter: each destination pixel is written at most
    /// once, by the topmost layer that paints it, and the routine stops as
    /// soon as every region pixel is painted. The result is pixel-identical
    /// to a full composition restricted to the region; bytes outside the
    /// region are untouched.
    pub fn layer_controller_render_partial(
        &mut self,
        layer_controller: &LayerController,
        render_x: u32,
        render_y: u32,
        render_width: u32,
        render_height: u32,
    )
        requires
            old(self).wf(),
            layer_controller.wf(),
            render_width * render_height <= usize::MAX,
        ensures
            final(self).wf(),
            final(self).geom() == old(self).geom(),
            final(self).fb().len() == old(self).fb().len(),
            forall|x: int, y: int, k: int|
                #[trigger] valid_triple(old(self).geom(), x, y, k) ==> final(self).byte(x, y, k)
                    == if in_region(
                    render_x as int,
                    render_y as int,
                    render_width as int,
                    render_height as int,
                    x,
                    y,
                ) {
                    render_byte(
                        old(self).fb(),
                        old(self).geom(),
                        layer_controller.layers(),
                        x,
                        y,
                        k,
                    )
                } else {
                    old(self).byte(x, y, k)
                },
    {
        let ghost geom = self.geom();
        let ghost fb0 = self.fb();
        let ghost ls = layer_controller.layers();
        let geo = self.info_copy();
        let total = (render_width as usize) * (render_height as usize);
        let mut rendered: Vec<bool> = Vec::new();
        let mut t0: usize = 0;
        while t0 < total
            invariant
                t0 <= total,
                rendered@.len() == t0,
                count_true(rendered@) == 0,
                forall|q: int| 0 <= q < t0 ==> !(#[trigger] rendered@[q]),
            decreases total - t0,
        {
            let ghost rprev = rendered@;
            rendered.push(false);
            proof {
                assert(rendered@.drop_last() =~= rprev);
            }
            t0 += 1;
        }
        let mut render_cnt: usize = 0;
        let n = layer_controller.get_layer_count();
        proof {
            assert(ls.skip(n as int) =~= Seq::<Layer>::empty());
            assert forall|i2: int, j2: int| #[trigger] cell_in(
                render_width as int,
                render_height as int,
                i2,
                j2,
            ) implies rendered@[j2 * (render_width as int) + i2] == (render_x + i2 < geom.width
                && render_y + j2 < geom.height && composite(
                ls.skip(n as int),
                render_x + i2,
                render_y + j2,
            ) is Some) by {
                crate::layer::lemma_cell_bounds(render_width as int, render_height as int, i2, j2);
                assert(composite(Seq::<Layer>::empty(), render_x + i2, render_y + j2) is None);
            }
            assert forall|x: int, y: int, k: int| #[trigger] valid_triple(geom, x, y, k) implies
                composite_byte(fb0, geom, composite(ls.skip(n as int), x, y), x, y, k) == fb0[
                byte_index(geom, x, y, k)
            ] by {
                assert(composite(Seq::<Layer>::empty(), x, y) is None);
            }
        }
        let mut li: usize = n;
        while li > 0
            invariant
                self.wf(),
                self.geom() == geom,
                self.fb().len() == fb0.len(),
                fb0.len() == geom.total_bytes(),
                geom == old(self).geom(),
                fb0 == old(self).fb(),
                geo == geom,
                layer_controller.wf(),
                ls == layer_controller.layers(),
                li <= n,
                n == ls.len(),
                rendered@.len() == total,
                total == render_width * render_height,
                total <= usize::MAX,
                render_cnt == count_true(rendered@),
                forall|i2: int, j2: int|
                    #[trigger] cell_in(render_width as int, render_height as int, i2, j2)
                        ==> rendered@[j2 * (render_width as int) + i2] == (render_x + i2
                        < geom.width && render_y + j2 < geom.height && composite(
                        ls.skip(li as int),
                        render_x + i2,
                        render_y + j2,
                    ) is Some),
                forall|x: int, y: int, k: int|
                    #[trigger] valid_triple(geom, x, y, k) ==> self.byte(x, y, k) == if in_region(
                        render_x as int,
                        render_y as int,
                        render_width as int,
                        render_height as int,
                        x,
                        y,
                    ) {
                        composite_byte(fb0, geom, composite(ls.skip(li as int), x, y), x, y, k)
                    } else {
                        fb0[byte_index(geom, x, y, k)]
                    },
            decreases li,
        {
            li -= 1;
            let layer = layer_controller.get_layer(li);
            let ghost upper = ls.skip(li as int + 1);
            if layer.is_hidden() {
                proof {
                    assert forall|i2: int, j2: int| #[trigger] cell_in(
                        render_width as int,
                        render_height as int,
                        i2,
                        j2,
                    ) implies rendered@[j2 * (render_width as int) + i2] == (render_x + i2
                        < geom.width && render_y + j2 < geom.height && composite(
                        ls.skip(li as int),
                        render_x + i2,
                        render_y + j2,
                    ) is Some) by {
                        lemma_composite_skip_step(ls, li as int, render_x + i2, render_y + j2);
                    }
                    assert forall|x: int, y: int, k: int| #[trigger] valid_triple(
                        geom,
                        x,
                        y,
                        k,
                    ) implies self.byte(x, y, k) == if in_region(
                        render_x as int,
                        render_y as int,
                        render_width as int,
                        render_height as int,
                        x,
                        y,
                    ) {
                        composite_byte(fb0, geom, composite(ls.skip(li as int), x, y), x, y, k)
                    } else {
                        fb0[byte_index(geom, x, y, k)]
                    } by {
                        lemma_composite_skip_step(ls, li as int, x, y);
                    }
                }
            } else {
                let (lxu, lyu) = layer.get_pos_usize();
                let lw = layer.get_width();
                let lh = layer.get_height();
                let fbuf = layer.get_framebuffer();
                let fl = fbuf.len();
                let lx64 = lxu as u64;
                let ly64 = lyu as u64;
                let rx64 = render_x as u64;
                let ry64 = render_y as u64;
                let w64 = geo.width as u64;
                let h64 = geo.height as u64;
                let mut jhi: u64 = lh as u64;
                if ly64 < ry64 + (render_height as u64) {
                    let e = ry64 + (render_height as u64) - ly64;
                    if e < jhi {
                        jhi = e;
                    }
                } else {
                    jhi = 0;
                }
                if ly64 < h64 {
                    let e = h64 - ly64;
                    if e < jhi {
                        jhi = e;
                    }
                } else {
                    jhi = 0;
                }
                let mut jlo: u64 = if ry64 > ly64 {
                    ry64 - ly64
                } else {
                    0
                };
                if jlo > jhi {
                    jlo = jhi;
                }
                let mut ihi: u64 = lw as u64;
                if lx64 < rx64 + (render_width as u64) {
                    let e = rx64 + (render_width as u64) - lx64;
                    if e < ihi {
                        ihi = e;
                    }
                } else {
                    ihi = 0;
                }
                if lx64 < w64 {
                    let e = w64 - lx64;
                    if e < ihi {
                        ihi = e;
                    }
                } else {
                    ihi = 0;
                }
                let mut ilo: u64 = if rx64 > lx64 {
                    rx64 - lx64
                } else {
                    0
                };
                if ilo > ihi {
                    ilo = ihi;
                }
                let mut j: u64 = jlo;
                while j < jhi
                    invariant
                        self.wf(),
                        self.geom() == geom,
                        self.fb().len() == fb0.len(),
                        fb0.len() == geom.total_bytes(),
                        geom == old(self).geom(),
                        fb0 == old(self).fb(),
                        geo == geom,
                        layer_controller.wf(),
                        ls == layer_controller.layers(),
                        li < n,
                        n == ls.len(),
                        *layer == ls[li as int],
                        !layer.hidden(),
                        layer.wf(),
                        upper == ls.skip(li as int + 1),
                        fbuf@ == layer.pixels(),
                        fbuf@.len() <= usize::MAX,
                        lxu == layer.x(),
                        lyu == layer.y(),
                        lw == layer.w(),
                        lh == layer.h(),
                        lx64 == lxu && ly64 == lyu && rx64 == render_x && ry64 == render_y,
                        w64 == geom.width && h64 == geom.height,
                        jlo <= j <= jhi,
                        jhi <= lh,
                        ilo <= ihi <= lw,
                        jhi == 0 || (lyu + jhi <= render_y + render_height && lyu + jhi
                            <= geom.height),
                        jlo == jhi || lyu + jlo >= render_y,
                        lyu + jlo <= render_y || jlo == 0,
                        jhi >= lh || lyu + jhi >= render_y + render_height || lyu + jhi
                            >= geom.height,
                        ihi == 0 || (lxu + ihi <= render_x + render_width && lxu + ihi
                            <= geom.width),
                        ilo == ihi || lxu + ilo >= render_x,
                        lxu + ilo <= render_x || ilo == 0,
                        ihi >= lw || lxu + ihi >= render_x + render_width || lxu + ihi
                            >= geom.width,
                        rendered@.len() == total,
                        total == render_width * render_height,
                        total <= usize::MAX,
                        render_cnt == count_true(rendered@),
                        forall|i2: int, j2: int|
                            #[trigger] cell_in(render_width as int, render_height as int, i2, j2)
                                ==> rendered@[j2 * (render_width as int) + i2] == (render_x + i2
                                < geom.width && render_y + j2 < geom.height && override_color(
                                composite(upper, render_x + i2, render_y + j2),
                                ls[li as int],
                                box_visited(
                                    lxu as int,
                                    lyu as int,
                                    jlo as int,
                                    j as int,
                                    ilo as int,
                                    ihi as int,
                                    ilo as int,
                                    render_x + i2,
                                    render_y + j2,
                                ),
                                render_x + i2,
                                render_y + j2,
                            ) is Some),
                        forall|x: int, y: int, k: int|
                            #[trigger] valid_triple(geom, x, y, k) ==> self.byte(x, y, k)
                                == if in_region(
                                render_x as int,
                                render_y as int,
                                render_width as int,
                                render_height as int,
                                x,
                                y,
                            ) {
                                composite_byte(
                                    fb0,
                                    geom,
                                    override_color(
                                        composite(upper, x, y),
                                        ls[li as int],
                                        box_visited(
                                            lxu as int,
                                            lyu as int,
                                            jlo as int,
                                            j as int,
                                            ilo as int,
                                            ihi as int,
                                            ilo as int,
                                            x,
                                            y,
                                        ),
                                        x,
                                        y,
                                    ),
                                    x,
                                    y,
                                    k,
                                )
                            } else {
                                fb0[byte_index(geom, x, y, k)]
                            },
                    decreases jhi - j,
                {
                    let mut i: u64 = ilo;
                    while i < ihi
                        invariant
                            self.wf(),
                            self.geom() == geom,
                            self.fb().len() == fb0.len(),
                            fb0.len() == geom.total_bytes(),
                            geom == old(self).geom(),
                            fb0 == old(self).fb(),
                            geo == geom,
                            layer_controller.wf(),
                            ls == layer_controller.layers(),
                            li < n,
                            n == ls.len(),
                            *layer == ls[li as int],
                            !layer.hidden(),
                            layer.wf(),
                            upper == ls.skip(li as int + 1),
                            fbuf@ == layer.pixels(),
                            fbuf@.len() <= usize::MAX,
                            lxu == layer.x(),
                            lyu == layer.y(),
                            lw == layer.w(),
                            lh == layer.h(),
                            lx64 == lxu && ly64 == lyu && rx64 == render_x && ry64 == render_y,
                            w64 == geom.width && h64 == geom.height,
                            jlo <= j < jhi,
                            jhi <= lh,
                            ilo <= i <= ihi,
                            ihi <= lw,
                            jhi == 0 || (lyu + jhi <= render_y + render_height && lyu + jhi
                                <= geom.height),
                            jlo == jhi || lyu + jlo >= render_y,
                            lyu + jlo <= render_y || jlo == 0,
                            jhi >= lh || lyu + jhi >= render_y + render_height || lyu + jhi
                                >= geom.height,
                            ihi == 0 || (lxu + ihi <= render_x + render_width && lxu + ihi
                                <= geom.width),
                            ilo == ihi || lxu + ilo >= render_x,
                            lxu + ilo <= render_x || ilo == 0,
                            ihi >= lw || lxu + ihi >= render_x + render_width || lxu + ihi
                                >= geom.width,
                            rendered@.len() == total,
                            total == render_width * render_height,
                            total <= usize::MAX,
                            render_cnt == count_true(rendered@),
                            forall|i2: int, j2: int|
                                #[trigger] cell_in(
                                    render_width as int,
                                    render_height as int,
                                    i2,
                                    j2,
                                ) ==> rendered@[j2 * (render_width as int) + i2] == (render_x + i2
                                    < geom.width && render_y + j2 < geom.height && override_color(
                                    composite(upper, render_x + i2, render_y + j2),
                                    ls[li as int],
                                    box_visited(
                                        lxu as int,
                                        lyu as int,
                                        jlo as int,
                                        j as int,
                                        ilo as int,
                                        ihi as int,
                                        i as int,
                                        render_x + i2,
                                        render_y + j2,
                                    ),
                                    render_x + i2,
                                    render_y + j2,
                                ) is Some),
                            forall|x: int, y: int, k: int|
                                #[trigger] valid_triple(geom, x, y, k) ==> self.byte(x, y, k)
                                    == if in_region(
                                    render_x as int,
                                    render_y as int,
                                    render_width as int,
                                    render_height as int,
                                    x,
                                    y,
                                ) {
                                    composite_byte(
                                        fb0,
                                        geom,
                                        override_color(
                                            composite(upper, x, y),
                                            ls[li as int],
                                            box_visited(
                                                lxu as int,
                                                lyu as int,
                                                jlo as int,
                                                j as int,
                                                ilo as int,
                                                ihi as int,
                                                i as int,
                                                x,
                                                y,
                                            ),
                                            x,
                                            y,
                                        ),
                                        x,
                                        y,
                                        k,
                                    )
                                } else {
                                    fb0[byte_index(geom, x, y, k)]
                                },
                        decreases ihi - i,
                    {
                        proof {
                            crate::layer::lemma_cell_bounds(
                                lw as int,
                                lh as int,
                                i as int,
                                j as int,
                            );
                        }
                        let c = fbuf[(j as usize) * (lw as usize) + (i as usize)];
                        let sx64 = lx64 + i;
                        let sy64 = ly64 + j;
                        if c.a == 0 {
                            proof {
                                assert forall|x: int, y: int, k: int| #[trigger] valid_triple(
                                    geom,
                                    x,
                                    y,
                                    k,
                                ) implies self.byte(x, y, k) == if in_region(
                                    render_x as int,
                                    render_y as int,
                                    render_width as int,
                                    render_height as int,
                                    x,
                                    y,
                                ) {
                                    composite_byte(
                                        fb0,
                                        geom,
                                        override_color(
                                            composite(upper, x, y),
                                            ls[li as int],
                                            box_visited(
                                                lxu as int,
                                                lyu as int,
                                                jlo as int,
                                                j as int,
                                                ilo as int,
                                                ihi as int,
                                                i + 1,
                                                x,
                                                y,
                                            ),
                                            x,
                                            y,
                                        ),
                                        x,
                                        y,
                                        k,
                                    )
                                } else {
                                    fb0[byte_index(geom, x, y, k)]
                                } by {
                                    assert(layer.pixel(i as int, j as int) == c);
                                }
                            }
                        }
                        if c.a != 0 {
                            proof {
                                crate::layer::lemma_cell_bounds(
                                    render_width as int,
                                    render_height as int,
                                    sx64 - render_x,
                                    sy64 - render_y,
                                );
                            }
                            let ridx = ((sy64 - ry64) * (render_width as u64) + (sx64 - rx64))
                                as usize;
                            if !rendered[ridx] {
                                proof {
                                    lemma_count_true_update(rendered@, ridx as int);
                                }
                                rendered[ridx] = true;
                                proof {
                                    lemma_count_true_le_len(rendered@);
                                }
                                render_cnt += 1;
                                let ghost fbp = self.fb();
                                self.put_pixel(sx64 as usize, sy64 as usize, c);
                                proof {
                                    lemma_with_pixel_bytes(
                                        fbp,
                                        geom,
                                        sx64 as int,
                                        sy64 as int,
                                        c,
                                    );
                                assert forall|x: int, y: int, k: int| #[trigger] valid_triple(
                                    geom,
                                    x,
                                    y,
                                    k,
                                ) implies self.byte(x, y, k) == if in_region(
                                    render_x as int,
                                    render_y as int,
                                    render_width as int,
                                    render_height as int,
                                    x,
                                    y,
                                ) {
                                    composite_byte(
                                        fb0,
                                        geom,
                                        override_color(
                                            composite(upper, x, y),
                                            ls[li as int],
                                            box_visited(
                                                lxu as int,
                                                lyu as int,
                                                jlo as int,
                                                j as int,
                                                ilo as int,
                                                ihi as int,
                                                i + 1,
                                                x,
                                                y,
                                            ),
                                            x,
                                            y,
                                        ),
                                        x,
                                        y,
                                        k,
                                    )
                                } else {
                                    fb0[byte_index(geom, x, y, k)]
                                } by {
                                    assert(layer.pixel(i as int, j as int) == c);
                                    assert(cell_in(
                                        render_width as int,
                                        render_height as int,
                                        sx64 - render_x,
                                        sy64 - render_y,
                                    ));
                                }
                                }
                            } else {
                                proof {
                                assert forall|x: int, y: int, k: int| #[trigger] valid_triple(
                                    geom,
                                    x,
                                    y,
                                    k,
                                ) implies self.byte(x, y, k) == if in_region(
                                    render_x as int,
                                    render_y as int,
                                    render_width as int,
                                    render_height as int,
                                    x,
                                    y,
                                ) {
                                    composite_byte(
                                        fb0,
                                        geom,
                                        override_color(
                                            composite(upper, x, y),
                                            ls[li as int],
                                            box_visited(
                                                lxu as int,
                                                lyu as int,
                                                jlo as int,
                                                j as int,
                                                ilo as int,
                                                ihi as int,
                                                i + 1,
                                                x,
                                                y,
                                            ),
                                            x,
                                            y,
                                        ),
                                        x,
                                        y,
                                        k,
                                    )
                                } else {
                                    fb0[byte_index(geom, x, y, k)]
                                } by {
                                    assert(cell_in(
                                        render_width as int,
                                        render_height as int,
                                        sx64 - render_x,
                                        sy64 - render_y,
                                    ));
                                }
                                }
                            }
                            proof {
                                assert forall|i2: int, j2: int| #[trigger] cell_in(
                                    render_width as int,
                                    render_height as int,
                                    i2,
                                    j2,
                                ) implies rendered@[j2 * (render_width as int) + i2] == (render_x
                                    + i2 < geom.width && render_y + j2 < geom.height
                                    && override_color(
                                    composite(upper, render_x + i2, render_y + j2),
                                    ls[li as int],
                                    box_visited(
                                        lxu as int,
                                        lyu as int,
                                        jlo as int,
                                        j as int,
                                        ilo as int,
                                        ihi as int,
                                        i + 1,
                                        render_x + i2,
                                        render_y + j2,
                                    ),
                                    render_x + i2,
                                    render_y + j2,
                                ) is Some) by {
                                    crate::layer::lemma_cell_bounds(
                                        render_width as int,
                                        render_height as int,
                                        i2,
                                        j2,
                                    );
                                    if j2 * (render_width as int) + i2 == (sy64 - render_y) * (
                                    render_width as int) + (sx64 - render_x) {
                                        crate::layer::lemma_cell_injective(
                                            render_width as int,
                                            i2,
                                            j2,
                                            sx64 - render_x,
                                            sy64 - render_y,
                                        );
                                    }
                                }
                            }
                        }
                        proof {
                            assert forall|i2: int, j2: int| #[trigger] cell_in(
                                render_width as int,
                                render_height as int,
                                i2,
                                j2,
                            ) implies rendered@[j2 * (render_width as int) + i2] == (render_x + i2
                                < geom.width && render_y + j2 < geom.height && override_color(
                                composite(upper, render_x + i2, render_y + j2),
                                ls[li as int],
                                box_visited(
                                    lxu as int,
                                    lyu as int,
                                    jlo as int,
                                    j as int,
                                    ilo as int,
                                    ihi as int,
                                    i + 1,
                                    render_x + i2,
                                    render_y + j2,
                                ),
                                render_x + i2,
                                render_y + j2,
                            ) is Some) by {
                            }
                        }
                        if render_cnt >= total {
                            proof {
                                lemma_count_true_le_len(rendered@);
                                lemma_count_true_all(rendered@);
                                assert(ls.take(li as int) + ls.skip(li as int) =~= ls);
                                assert forall|x: int, y: int, k: int| #[trigger] valid_triple(
                                    geom,
                                    x,
                                    y,
                                    k,
                                ) implies self.byte(x, y, k) == if in_region(
                                    render_x as int,
                                    render_y as int,
                                    render_width as int,
                                    render_height as int,
                                    x,
                                    y,
                                ) {
                                    render_byte(fb0, geom, ls, x, y, k)
                                } else {
                                    fb0[byte_index(geom, x, y, k)]
                                } by {
                                    if in_region(
                                        render_x as int,
                                        render_y as int,
                                        render_width as int,
                                        render_height as int,
                                        x,
                                        y,
                                    ) {
                                        let i2 = x - render_x;
                                        let j2 = y - render_y;
                                        crate::layer::lemma_cell_bounds(
                                            render_width as int,
                                            render_height as int,
                                            i2,
                                            j2,
                                        );
                                        assert(cell_in(
                                            render_width as int,
                                            render_height as int,
                                            i2,
                                            j2,
                                        ));
                                        assert(rendered@[j2 * (render_width as int) + i2]);
                                        lemma_composite_skip_step(ls, li as int, x, y);
                                        lemma_composite_append(
                                            ls.take(li as int),
                                            ls.skip(li as int),
                                            x,
                                            y,
                                        );
                                    }
                                }
                            }
                            return ;
                        }
                        i += 1;
                    }
                    j += 1;
                }
                proof {
                    assert forall|i2: int, j2: int| #[trigger] cell_in(
                        render_width as int,
                        render_height as int,
                        i2,
                        j2,
                    ) implies rendered@[j2 * (render_width as int) + i2] == (render_x + i2
                        < geom.width && render_y + j2 < geom.height && composite(
                        ls.skip(li as int),
                        render_x + i2,
                        render_y + j2,
                    ) is Some) by {
                        lemma_composite_skip_step(ls, li as int, render_x + i2, render_y + j2);
                    }
                    assert forall|x: int, y: int, k: int| #[trigger] valid_triple(
                        geom,
                        x,
                        y,
                        k,
                    ) implies self.byte(x, y, k) == if in_region(
                        render_x as int,
                        render_y as int,
                        render_width as int,
                        render_height as int,
                        x,
                        y,
                    ) {
                        composite_byte(fb0, geom, composite(ls.skip(li as int), x, y), x, y, k)
                    } else {
                        fb0[byte_index(geom, x, y, k)]
                    } by {
                        lemma_composite_skip_step(ls, li as int, x, y);
                    }
                }
            }
        }
        proof {
            assert(ls.skip(0) =~= ls);
        }
    }
}

/// Damage-region composition agrees with full composition. If `p_full`
/// came out of a full render of the painter state `p0` over the layers of
/// `lc`, and `p_part` came out of a render of only the given region from
/// the same `p0` and `lc` — each characterized by the render contracts —
/// then inside the region every byte of `p_part` equals the byte of
/// `p_full`, and outside it every byte of `p_part` still equals `p0`'s.
pub proof fn lemma_render_region_matches_full(
    p0: Painter,
    p_full: Painter,
    p_part: Painter,
    lc: LayerController,
    rx: int,
    ry: int,
    rw: int,
    rh: int,
)
    requires
        forall|x: int, y: int, k: int|
            #[trigger] valid_triple(p0.geom(), x, y, k) ==> p_full.byte(x, y, k) == render_byte(
                p0.fb(),
                p0.geom(),
                lc.layers(),
                x,
                y,
                k,
            ),
        forall|x: int, y: int, k: int|
            #[trigger] valid_triple(p0.geom(), x, y, k) ==> p_part.byte(x, y, k) == if in_region(
                rx,
                ry,
                rw,
                rh,
                x,
                y,
            ) {
                render_byte(p0.fb(), p0.geom(), lc.layers(), x, y, k)
            } else {
                p0.byte(x, y, k)
            },
    ensures
        forall|x: int, y: int, k: int|
            #[trigger] valid_triple(p0.geom(), x, y, k) && in_region(rx, ry, rw, rh, x, y)
                ==> p_part.byte(x, y, k) == p_full.byte(x, y, k),
        forall|x: int, y: int, k: int|
            #[trigger] valid_triple(p0.geom(), x, y, k) && !in_region(rx, ry, rw, rh, x, y)
                ==> p_part.byte(x, y, k) == p0.byte(x, y, k),
{
}

impl LayerController {
    /// Composites every visible registered layer into the painter's
    /// framebuffer, bottom to top.
    pub fn render(&self, painter: &mut Painter)
        requires
            self.wf(),
            old(painter).wf(),
        ensures
            final(painter).wf(),
            final(painter).geom() == old(painter).geom(),
            final(painter).fb().len() == old(painter).fb().len(),
            forall|x: int, y: int, k: int|
                #[trigger] valid_triple(old(painter).geom(), x, y, k) ==> final(painter).byte(
                    x,
                    y,
                    k,
                ) == render_byte(old(painter).fb(), old(painter).geom(), self.layers(), x, y, k),
    {
        painter.layer_controller_render(self);
    }

    /// Composites only the given rectangular region into the painter's
    /// framebuffer, top to bottom with occlusion tracking; bytes outside
    /// the region are untouched.
    pub fn render_partial(&self, painter: &mut Painter, x: u32, y: u32, width: u32, height: u32)
        requires
            self.wf(),
            old(painter).wf(),
            width * height <= usize::MAX,
        ensures
            final(painter).wf(),
            final(painter).geom() == old(painter).geom(),
            final(painter).fb().len() == old(painter).fb().len(),
            forall|px: int, py: int, k: int|
                #[trigger] valid_triple(old(painter).geom(), px, py, k) ==> final(painter).byte(
                    px,
                    py,
                    k,
                ) == if in_region(x as int, y as int, width as int, height as int, px, py) {
                    render_byte(old(painter).fb(), old(painter).geom(), self.layers(), px, py, k)
                } else {
                    old(painter).byte(px, py, k)
                },
    {
        painter.layer_controller_render_partial(self, x, y, width, height);
    }
}

/// Composites every visible registered layer into the framebuffer, bottom
/// to top.
pub fn layer_controller_render(painter: &mut Painter, layer_controller: &LayerController)
    requires
        old(painter).wf(),
        layer_controller.wf(),
    ensures
        final(painter).wf(),
        final(painter).geom() == old(painter).geom(),
        final(painter).fb().len() == old(painter).fb().len(),
        forall|x: int, y: int, k: int|
            #[trigger] valid_triple(old(painter).geom(), x, y, k) ==> final(painter).byte(x, y, k)
                == render_byte(
                old(painter).fb(),
                old(painter).geom(),
                layer_controller.layers(),
                x,
                y,
                k,
            ),
{
    painter.layer_controller_render(layer_controller);
}

/// Composites only the given rectangular region, top to bottom with
/// occlusion tracking.
pub fn layer_controller_render_partial(
    painter: &mut Painter,
    layer_controller: &LayerController,
    x: u32,
    y: u32,
    width: u32,
    height: u32,
)
    requires
        old(painter).wf(),
        layer_controller.wf(),
        width * height <= usize::MAX,
    ensures
        final(painter).wf(),
        final(painter).geom() == old(painter).geom(),
        final(painter).fb().len() == old(painter).fb().len(),
        forall|px: int, py: int, k: int|
            #[trigger] valid_triple(old(painter).geom(), px, py, k) ==> final(painter).byte(
                px,
                py,
                k,
            ) == if in_region(x as int, y as int, width as int, height as int, px, py) {
                render_byte(
                    old(painter).fb(),
                    old(painter).geom(),
                    layer_controller.layers(),
                    px,
                    py,
                    k,
                )
            } else {
                old(painter).byte(px, py, k)
            },
{
    painter.layer_controller_render_partial(layer_controller, x, y, width, height);
}

/// The color the layer stack's visited portion shows during a top-down
/// box walk of one layer: true for pixels of the intersection box whose
/// rows lie strictly above the current one, and for pixels of the current
/// row to the left of the current column.
spec fn box_visited(
    lx: int,
    ly: int,
    jlo: int,
    j: int,
    ilo: int,
    ihi: int,
    i: int,
    x: int,
    y: int,
) -> bool {
    ||| (jlo <= y - ly < j && ilo <= x - lx < ihi)
    ||| (y - ly == j && ilo <= x - lx < i)
}

} // verus!
