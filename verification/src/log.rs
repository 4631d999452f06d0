use vstd::prelude::*;

use crate::color::{desktop_background, white, Color};
use crate::geometry::{
    byte_index, channel_value, lemma_row_shift, valid_triple, FramebufferGeometry,
};
use crate::graphics::{char_advance, draw_char, get_char_width, rect_covers, Painter};
use crate::unifont::Font;
use vstd::string::StrSliceExecFns;

verus! {

/// The scrolling text logger: a cursor over the painter's framebuffer,
/// wrapping at the right margin and scrolling the screen when the cursor
/// reaches the bottom. It is a consumer of the painter's primitives: all
/// pixel writes go through them.
pub struct Logger {
    line_height: u32,
    margin: u32,
    x: u32,
    y: u32,
    color: Color,
    indent: u32,
}

/// The background color the logger clears lines with.
pub open spec fn logger_background() -> Color {
    Color { r: 0x20, g: 0x20, b: 0x20, a: 0xff }
}

/// Byte value after the logger cleared the rectangle at `(x0, ytop)` of
/// size `w x h` with its background color, over framebuffer bytes `fb`.
pub open spec fn clear_rect_byte(
    fb: Seq<u8>,
    g: FramebufferGeometry,
    x0: int,
    ytop: int,
    w: int,
    h: int,
    px: int,
    py: int,
    k: int,
) -> u8 {
    if rect_covers(g, x0, ytop, w, h, px, py) && k < 3 {
        channel_value(g.pixel_format, logger_background(), k)
    } else {
        fb[byte_index(g, px, py, k)]
    }
}

/// Byte value after the logger scrolled the screen one line up and
/// cleared the freed bottom line, over framebuffer bytes `fb`: the
/// clearing rectangle shows the background, rows above the moved region's
/// end show the row `line_height` further down, and the remaining bottom
/// rows keep their bytes.
pub open spec fn scroll_byte(
    fb: Seq<u8>,
    g: FramebufferGeometry,
    margin: int,
    lh: int,
    px: int,
    py: int,
    k: int,
) -> u8 {
    if rect_covers(g, margin, g.height - margin - lh, g.width - 2 * margin, lh, px, py) && k < 3 {
        channel_value(g.pixel_format, logger_background(), k)
    } else if py < g.height - lh {
        fb[byte_index(g, px, py + lh, k)]
    } else {
        fb[byte_index(g, px, py, k)]
    }
}

/// The cursor row after a line feed: one line further down, or unchanged
/// when that would run into the bottom margin (the screen scrolls
/// instead).
pub open spec fn new_line_y(g: FramebufferGeometry, lh: int, margin: int, y0: int) -> int {
    if y0 + 3 * lh > g.height - margin {
        y0
    } else {
        y0 + lh
    }
}

/// Byte value after the logger's line feed over framebuffer bytes `fb`:
/// the next line's strip is cleared, and when the cursor would run into
/// the bottom margin the whole screen scrolls one line up first.
pub open spec fn new_line_byte(
    fb: Seq<u8>,
    g: FramebufferGeometry,
    lh: int,
    margin: int,
    indent: int,
    y0: int,
    px: int,
    py: int,
    k: int,
) -> u8 {
    let x1 = margin + 8 * indent;
    let cleared = clear_rect_byte(fb, g, x1, y0 + lh, g.width - 2 * margin, lh, px, py, k);
    if y0 + 3 * lh > g.height - margin {
        if rect_covers(g, margin, g.height - margin - lh, g.width - 2 * margin, lh, px, py) && k
            < 3 {
            channel_value(g.pixel_format, logger_background(), k)
        } else if py < g.height - lh {
            clear_rect_byte(fb, g, x1, y0 + lh, g.width - 2 * margin, lh, px, py + lh, k)
        } else {
            cleared
        }
    } else {
        cleared
    }
}

/// The cursor position after printing one character: the pen wraps to a
/// fresh line when the character would cross the right margin, a line
/// feed only moves the cursor, and any other character advances the pen
/// by its glyph's width.
pub open spec fn print_step_pos(
    g: FramebufferGeometry,
    font: Font,
    lh: int,
    margin: int,
    indent: int,
    x: int,
    y: int,
    c: char,
) -> (int, int) {
    let cw = char_advance(font, c);
    let wrapped = x + cw > g.width - margin;
    let x1 = if wrapped {
        margin + 8 * indent
    } else {
        x
    };
    let y1 = if wrapped {
        new_line_y(g, lh, margin, y)
    } else {
        y
    };
    if c == '\n' {
        (margin + 8 * indent, new_line_y(g, lh, margin, y1))
    } else {
        (x1 + cw, y1)
    }
}

/// The cursor position after printing a string character by character.
pub open spec fn print_pos(
    g: FramebufferGeometry,
    font: Font,
    lh: int,
    margin: int,
    indent: int,
    x: int,
    y: int,
    chars: Seq<char>,
) -> (int, int)
    decreases chars.len(),
{
    if chars.len() == 0 {
        (x, y)
    } else {
        let (x1, y1) = print_step_pos(g, font, lh, margin, indent, x, y, chars[0]);
        print_pos(g, font, lh, margin, indent, x1, y1, chars.drop_first())
    }
}

impl Logger {
    pub closed spec fn line_height(self) -> int {
        self.line_height as int
    }

    pub closed spec fn margin(self) -> int {
        self.margin as int
    }

    pub closed spec fn x(self) -> int {
        self.x as int
    }

    pub closed spec fn y(self) -> int {
        self.y as int
    }

    pub closed spec fn color_spec(self) -> Color {
        self.color
    }

    pub closed spec fn indent(self) -> int {
        self.indent as int
    }

    /// The logger's geometry fits the screen it writes to: positive line
    /// height, a line plus the margin fit the height, and both margins fit
    /// the width.
    pub open spec fn fits(self, g: FramebufferGeometry) -> bool {
        &&& 1 <= self.line_height()
        &&& self.margin() + self.line_height() <= g.height
        &&& 2 * self.margin() <= g.width
    }

    /// A fresh logger: cursor at the top left margin corner, white text.
    pub fn new(line_height: u32, margin: u32) -> (l: Logger)
        ensures
            l.line_height() == line_height,
            l.margin() == margin,
            l.x() == margin,
            l.y() == margin,
            l.color_spec() == (Color { r: 0xff, g: 0xff, b: 0xff, a: 0xff }),
            l.indent() == 0,
    {
        Logger { line_height, margin, x: margin, y: margin, color: white(), indent: 0 }
    }

    pub fn set_color(&mut self, color: Color)
        ensures
            final(self).color_spec() == color,
            final(self).line_height() == old(self).line_height(),
            final(self).margin() == old(self).margin(),
            final(self).x() == old(self).x(),
            final(self).y() == old(self).y(),
            final(self).indent() == old(self).indent(),
    {
        self.color = color;
    }

    pub fn set_indent(&mut self, indent: u32)
        ensures
            final(self).indent() == indent,
            final(self).line_height() == old(self).line_height(),
            final(self).margin() == old(self).margin(),
            final(self).x() == old(self).x(),
            final(self).y() == old(self).y(),
            final(self).color_spec() == old(self).color_spec(),
    {
        self.indent = indent;
    }

    /// Steps the cursor one 8-column character cell back and clears that
    /// cell's strip with the background color. A cursor at or before the
    /// left margin, or without a full cell of room, stays put.
    pub fn backspace(&mut self, painter: &mut Painter)
        requires
            old(painter).wf(),
        ensures
            final(painter).wf(),
            final(painter).geom() == old(painter).geom(),
            final(painter).fb().len() == old(painter).fb().len(),
            final(self).line_height() == old(self).line_height(),
            final(self).margin() == old(self).margin(),
            final(self).y() == old(self).y(),
            final(self).color_spec() == old(self).color_spec(),
            final(self).indent() == old(self).indent(),
            old(self).x() > old(self).margin() && old(self).x() >= 8 ==> {
                &&& final(self).x() == old(self).x() - 8
                &&& forall|px: int, py: int, k: int|
                    #[trigger] valid_triple(old(painter).geom(), px, py, k) ==> final(painter).byte(px, py, k) == clear_rect_byte(
                        old(painter).fb(),
                        old(painter).geom(),
                        old(self).x() - 8,
                        old(self).y(),
                        8,
                        old(self).line_height(),
                        px,
                        py,
                        k,
                    )
            },
            !(old(self).x() > old(self).margin() && old(self).x() >= 8) ==> final(self).x() == old(self).x() && final(painter).fb() == old(painter).fb(),
    {
        if self.x > self.margin && self.x >= 8 {
            self.x -= 8;
            painter.draw_rect(self.x, self.y, 8, self.line_height, desktop_background());
        }
    }

    /// Scrolls the screen contents one line up and clears the freed
    /// bottom line above the bottom margin.
    pub fn scroll_up(&mut self, painter: &mut Painter)
        requires
            old(painter).wf(),
            old(self).fits(old(painter).geom()),
        ensures
            final(painter).wf(),
            final(painter).geom() == old(painter).geom(),
            final(painter).fb().len() == old(painter).fb().len(),
            *final(self) == *old(self),
            forall|px: int, py: int, k: int|
                #[trigger] valid_triple(old(painter).geom(), px, py, k) ==> final(painter).byte(
                    px,
                    py,
                    k,
                ) == scroll_byte(
                    old(painter).fb(),
                    old(painter).geom(),
                    old(self).margin(),
                    old(self).line_height(),
                    px,
                    py,
                    k,
                ),
    {
        let geom = painter.info_copy();
        let ghost fb0 = painter.fb();
        painter.move_all_up(self.line_height);
        let ghost fb1 = painter.fb();
        proof {
            lemma_row_shift(geom, self.line_height as int);
        }
        let w = painter.get_width();
        let h = painter.get_height();
        painter.draw_rect(
            self.margin,
            h - self.margin - self.line_height,
            w - self.margin * 2,
            self.line_height,
            desktop_background(),
        );
        proof {
            assert forall|px: int, py: int, k: int| #[trigger] valid_triple(
                geom,
                px,
                py,
                k,
            ) implies painter.byte(px, py, k) == scroll_byte(
                fb0,
                geom,
                old(self).margin(),
                old(self).line_height(),
                px,
                py,
                k,
            ) by {
                crate::geometry::lemma_byte_index_bounds(geom, px, py, k);
                let bi = byte_index(geom, px, py, k);
                let lh = old(self).line_height();
                if py < geom.height - lh {
                    assert(valid_triple(geom, px, py + lh, k));
                    assert(fb1[bi] == fb0[byte_index(geom, px, py + lh, k)]);
                } else {
                    assert(fb1[bi] == fb0[bi]);
                }
            }
        }
    }

    /// Moves the cursor to the start of the next line (honoring the
    /// indent), clears that line's strip, and scrolls the screen instead
    /// of stepping down when the cursor would run into the bottom margin.
    pub fn new_line(&mut self, painter: &mut Painter)
        requires
            old(painter).wf(),
            old(self).fits(old(painter).geom()),
            old(self).margin() + 8 * old(self).indent() <= u32::MAX,
        ensures
            final(painter).wf(),
            final(painter).geom() == old(painter).geom(),
            final(painter).fb().len() == old(painter).fb().len(),
            final(self).line_height() == old(self).line_height(),
            final(self).margin() == old(self).margin(),
            final(self).color_spec() == old(self).color_spec(),
            final(self).indent() == old(self).indent(),
            final(self).x() == old(self).margin() + 8 * old(self).indent(),
            final(self).y() == new_line_y(
                old(painter).geom(),
                old(self).line_height(),
                old(self).margin(),
                old(self).y(),
            ),
            forall|px: int, py: int, k: int|
                #[trigger] valid_triple(old(painter).geom(), px, py, k) ==> final(painter).byte(
                    px,
                    py,
                    k,
                ) == new_line_byte(
                    old(painter).fb(),
                    old(painter).geom(),
                    old(self).line_height(),
                    old(self).margin(),
                    old(self).indent(),
                    old(self).y(),
                    px,
                    py,
                    k,
                ),
    {
        let geom = painter.info_copy();
        let ghost fb0 = painter.fb();
        let ghost y0 = self.y() ;
        self.x = self.margin + self.indent * 8;
        let w = painter.get_width();
        let h = painter.get_height();
        let ytop = (self.y as u64) + (self.line_height as u64);
        if ytop <= u32::MAX as u64 {
            painter.draw_rect(
                self.x,
                ytop as u32,
                w - self.margin * 2,
                self.line_height,
                desktop_background(),
            );
        } else {
            proof {
                assert forall|px: int, py: int, k: int| #[trigger] valid_triple(
                    geom,
                    px,
                    py,
                    k,
                ) implies painter.byte(px, py, k) == clear_rect_byte(
                    fb0,
                    geom,
                    old(self).margin() + 8 * old(self).indent(),
                    y0 + old(self).line_height(),
                    geom.width - 2 * old(self).margin(),
                    old(self).line_height(),
                    px,
                    py,
                    k,
                ) by {
                }
            }
        }
        let newy = (self.y as u64) + 3 * (self.line_height as u64);
        if newy > (h - self.margin) as u64 {
            self.scroll_up(painter);
            proof {
                assert forall|px: int, py: int, k: int| #[trigger] valid_triple(
                    geom,
                    px,
                    py,
                    k,
                ) implies painter.byte(px, py, k) == new_line_byte(
                    fb0,
                    geom,
                    old(self).line_height(),
                    old(self).margin(),
                    old(self).indent(),
                    y0,
                    px,
                    py,
                    k,
                ) by {
                    if py < geom.height - old(self).line_height() {
                        assert(valid_triple(geom, px, py + old(self).line_height(), k));
                    }
                }
            }
        } else {
            self.y = self.y + self.line_height;
        }
    }

    /// Prints a string character by character: each character may wrap
    /// the pen to a fresh line first, a line feed moves the cursor, and
    /// any other character is drawn at the pen with the logger's color and
    /// advances the pen by its width. This contract tracks the cursor; the
    /// pixels written follow the contracts of `draw_char` and `new_line`.
    pub fn print(&mut self, painter: &mut Painter, font: &Font, s: &str)
        requires
            old(painter).wf(),
            font.wf(),
            old(self).fits(old(painter).geom()),
            old(self).margin() + 8 * old(self).indent() + 16 <= u32::MAX,
            s@.len() <= u32::MAX,
        ensures
            final(painter).wf(),
            final(painter).geom() == old(painter).geom(),
            final(painter).fb().len() == old(painter).fb().len(),
            final(self).line_height() == old(self).line_height(),
            final(self).margin() == old(self).margin(),
            final(self).color_spec() == old(self).color_spec(),
            final(self).indent() == old(self).indent(),
            (final(self).x(), final(self).y()) == print_pos(
                old(painter).geom(),
                *font,
                old(self).line_height(),
                old(self).margin(),
                old(self).indent(),
                old(self).x(),
                old(self).y(),
                s@,
            ),
    {
        let geom = painter.info_copy();
        let len = s.unicode_len();
        proof {
            assert(s@.skip(0) =~= s@);
        }
        let mut idx: usize = 0;
        while idx < len
            invariant
                painter.wf(),
                painter.geom() == geom,
                geom == old(painter).geom(),
                painter.fb().len() == old(painter).fb().len(),
                font.wf(),
                len == s@.len(),
                len <= u32::MAX,
                idx <= len,
                self.fits(geom),
                self.line_height() == old(self).line_height(),
                self.margin() == old(self).margin(),
                self.color_spec() == old(self).color_spec(),
                self.indent() == old(self).indent(),
                self.margin() + 8 * self.indent() + 16 <= u32::MAX,
                print_pos(
                    geom,
                    *font,
                    self.line_height(),
                    self.margin(),
                    self.indent(),
                    self.x(),
                    self.y(),
                    s@.skip(idx as int),
                ) == print_pos(
                    geom,
                    *font,
                    old(self).line_height(),
                    old(self).margin(),
                    old(self).indent(),
                    old(self).x(),
                    old(self).y(),
                    s@,
                ),
            decreases len - idx,
        {
            let c = s.get_char(idx);
            proof {
                assert(s@.skip(idx as int)[0] == c);
                assert(s@.skip(idx as int).drop_first() =~= s@.skip(idx as int + 1));
            }
            let cw = get_char_width(font, c);
            let newx = (self.x as u64) + (cw as u64);
            let w = painter.get_width();
            if newx > (w - self.margin) as u64 {
                self.new_line(painter);
            }
            if c == '\n' {
                self.new_line(painter);
            } else {
                let adv = draw_char(painter, font, self.x, self.y, c, self.color);
                self.x = self.x + adv;
            }
            idx += 1;
        }
        proof {
            assert(s@.skip(len as int) =~= Seq::<char>::empty());
        }
    }
}

/// Creates the logger with the given line height and page margin.
pub fn logger_init(line_height: u32, margin: u32) -> (l: Logger)
    ensures
        l.line_height() == line_height,
        l.margin() == margin,
        l.x() == margin,
        l.y() == margin,
        l.color_spec() == (Color { r: 0xff, g: 0xff, b: 0xff, a: 0xff }),
        l.indent() == 0,
{
    Logger::new(line_height, margin)
}

/// Steps the logger's cursor one character cell back, clearing the cell.
pub fn backspace(logger: &mut Logger, painter: &mut Painter)
    requires
        old(painter).wf(),
    ensures
        final(painter).wf(),
        final(painter).geom() == old(painter).geom(),
        final(painter).fb().len() == old(painter).fb().len(),
        final(logger).line_height() == old(logger).line_height(),
        final(logger).margin() == old(logger).margin(),
        final(logger).y() == old(logger).y(),
        old(logger).x() > old(logger).margin() && old(logger).x() >= 8 ==> final(logger).x() == old(logger).x() - 8,
        !(old(logger).x() > old(logger).margin() && old(logger).x() >= 8) ==> final(logger).x()
            == old(logger).x() && final(painter).fb() == old(painter).fb(),
{
    logger.backspace(painter);
}

/// Sets the color the logger draws subsequent text with.
pub fn set_color(logger: &mut Logger, color: Color)
    ensures
        final(logger).color_spec() == color,
        final(logger).x() == old(logger).x(),
        final(logger).y() == old(logger).y(),
        final(logger).indent() == old(logger).indent(),
        final(logger).line_height() == old(logger).line_height(),
        final(logger).margin() == old(logger).margin(),
{
    logger.set_color(color);
}

/// Sets the indent, in 8-column character cells, that line feeds return
/// the cursor to.
pub fn set_indent(logger: &mut Logger, indent: u32)
    ensures
        final(logger).indent() == indent,
        final(logger).x() == old(logger).x(),
        final(logger).y() == old(logger).y(),
        final(logger).color_spec() == old(logger).color_spec(),
        final(logger).line_height() == old(logger).line_height(),
        final(logger).margin() == old(logger).margin(),
{
    logger.set_indent(indent);
}

} // verus!
