use vstd::prelude::*;

verus! {

/// A fixed-height bitmap glyph of 16 rows: half width (8 columns, one
/// byte per row) or full width (16 columns, one 16-bit word per row). The
/// highest bit of a row is its leftmost column.
#[derive(Clone, Copy, Debug)]
pub enum Glyph {
    HalfWidth([u8; 16]),
    FullWidth([u16; 16]),
}

impl Glyph {
    /// True when the glyph's bitmap sets the pixel at `(x, y)`.
    pub open spec fn pixel(self, x: int, y: int) -> bool {
        0 <= y < 16 && match self {
            Glyph::HalfWidth(rows) => 0 <= x < 8 && rows[y] & (0x80u8 >> (x as u8)) != 0,
            Glyph::FullWidth(rows) => 0 <= x < 16 && rows[y] & (0x8000u16 >> (x as u16)) != 0,
        }
    }

    /// The glyph's advance width in columns.
    pub open spec fn width_spec(self) -> int {
        match self {
            Glyph::HalfWidth(_) => 8,
            Glyph::FullWidth(_) => 16,
        }
    }

    pub fn get_pixel(&self, x: usize, y: usize) -> (r: bool)
        ensures
            r == self.pixel(x as int, y as int),
    {
        y < 16 && match self {
            Glyph::HalfWidth(rows) => x < 8 && rows[y] & (0x80u8 >> (x as u8)) != 0,
            Glyph::FullWidth(rows) => x < 16 && rows[y] & (0x8000u16 >> (x as u16)) != 0,
        }
    }

    pub fn get_width(&self) -> (w: usize)
        ensures
            w == self.width_spec(),
    {
        match self {
            Glyph::HalfWidth(_) => 8,
            Glyph::FullWidth(_) => 16,
        }
    }
}

/// Number of code points covered by the first `i` ranges of a glyph
/// table.
pub open spec fn offset_before(ranges: Seq<(u32, u32)>, i: int) -> int
    decreases i,
{
    if i <= 0 {
        0
    } else {
        offset_before(ranges, i - 1) + (ranges[i - 1].1 - ranges[i - 1].0)
    }
}

/// Index of the first range containing the code point, scanning in table
/// order.
pub open spec fn find_range(ranges: Seq<(u32, u32)>, cp: int) -> Option<int>
    decreases ranges.len(),
{
    if ranges.len() == 0 {
        None
    } else if ranges[0].0 <= cp < ranges[0].1 {
        Some(0int)
    } else {
        match find_range(ranges.drop_first(), cp) {
            Some(i) => Some(i + 1),
            None => None,
        }
    }
}

/// The glyph bitmap data a font provides: a list of half-open code-point
/// ranges and, in the same order, one glyph for each covered code point.
pub struct Font {
    ranges: Vec<(u32, u32)>,
    glyphs: Vec<Glyph>,
}

/// The glyph a font maps a code point to: the glyph stored at the code
/// point's offset within the first range that contains it.
pub open spec fn glyph_lookup(font: Font, cp: int) -> Option<Glyph> {
    match find_range(font.ranges(), cp) {
        Some(i) => Some(
            font.glyphs()[offset_before(font.ranges(), i) + cp - font.ranges()[i].0],
        ),
        None => None,
    }
}

/// Partial cover counts grow with the index.
pub proof fn lemma_offset_before_mono(ranges: Seq<(u32, u32)>, i: int, j: int)
    requires
        0 <= i <= j <= ranges.len(),
        forall|q: int| 0 <= q < ranges.len() ==> (#[trigger] ranges[q]).0 <= ranges[q].1,
    ensures
        offset_before(ranges, i) <= offset_before(ranges, j),
    decreases j - i,
{
    if i < j {
        lemma_offset_before_mono(ranges, i, j - 1);
    }
}

/// A scan that found no containing range among the first `idx` ranges
/// settles the lookup: the table's answer is `None` when the scan is
/// exhausted, and `idx` when range `idx` contains the code point.
pub proof fn lemma_find_range_scan(ranges: Seq<(u32, u32)>, cp: int, idx: int)
    requires
        0 <= idx <= ranges.len(),
        forall|q: int| 0 <= q < idx ==> !((#[trigger] ranges[q]).0 <= cp < ranges[q].1),
    ensures
        idx == ranges.len() ==> find_range(ranges, cp) is None,
        idx < ranges.len() && ranges[idx].0 <= cp < ranges[idx].1 ==> find_range(ranges, cp)
            == Some(idx),
    decreases idx,
{
    if idx > 0 {
        let rest = ranges.drop_first();
        assert forall|q: int| 0 <= q < idx - 1 implies !((#[trigger] rest[q]).0 <= cp
            < rest[q].1) by {
            assert(rest[q] == ranges[q + 1]);
        }
        lemma_find_range_scan(rest, cp, idx - 1);
        if idx < ranges.len() {
            assert(rest[idx - 1] == ranges[idx]);
        }
    }
}

impl Font {
    pub closed spec fn ranges(self) -> Seq<(u32, u32)> {
        self.ranges@
    }

    pub closed spec fn glyphs(self) -> Seq<Glyph> {
        self.glyphs@
    }

    /// The font's invariant: every range is well ordered and the glyph
    /// list covers exactly the code points of all ranges together.
    pub open spec fn wf(self) -> bool {
        &&& forall|i: int|
            0 <= i < self.ranges().len() ==> (#[trigger] self.ranges()[i]).0 <= self.ranges()[i].1
        &&& offset_before(self.ranges(), self.ranges().len() as int) == self.glyphs().len()
    }

    /// Builds a font after validating the table: every range must be well
    /// ordered and the glyph list must hold exactly one glyph per covered
    /// code point. An inconsistent table yields `None`.
    pub fn new(ranges: Vec<(u32, u32)>, glyphs: Vec<Glyph>) -> (r: Option<Font>)
        ensures
            match r {
                Some(f) => f.wf() && f.ranges() == ranges@ && f.glyphs() == glyphs@,
                None => !{
                    &&& forall|i: int|
                        0 <= i < ranges@.len() ==> (#[trigger] ranges@[i]).0 <= ranges@[i].1
                    &&& offset_before(ranges@, ranges@.len() as int) == glyphs@.len()
                },
            },
    {
        let total = glyphs.len();
        let n = ranges.len();
        let mut sum: usize = 0;
        let mut i: usize = 0;
        while i < n
            invariant
                i <= n,
                n == ranges@.len(),
                total == glyphs@.len(),
                sum == offset_before(ranges@, i as int),
                sum <= total,
                forall|q: int| 0 <= q < i ==> (#[trigger] ranges@[q]).0 <= ranges@[q].1,
            decreases n - i,
        {
            let (start, end) = ranges[i];
            if start > end {
                return None;
            }
            let size = (end - start) as usize;
            if size > total - sum {
                proof {
                    let ghost rs = ranges@;
                    if forall|q: int| 0 <= q < rs.len() ==> (#[trigger] rs[q]).0 <= rs[q].1 {
                        lemma_offset_before_mono(rs, i as int + 1, rs.len() as int);
                    }
                }
                return None;
            }
            sum = sum + size;
            i += 1;
        }
        if sum != total {
            return None;
        }
        Some(Font { ranges, glyphs })
    }

    /// Number of registered ranges, exposed for table inspection.
    pub fn range_count(&self) -> (n: usize)
        ensures
            n == self.ranges().len(),
    {
        self.ranges.len()
    }
}

/// Looks a character up in the font: scans the code-point ranges in
/// order, accumulating the glyph offset of each skipped range, and returns
/// the glyph stored for the first range that contains the character. A
/// character no range covers has no glyph.
pub fn get_glyph(font: &Font, c: char) -> (r: Option<Glyph>)
    requires
        font.wf(),
    ensures
        r == glyph_lookup(*font, c as int),
{
    let cp = c as u32;
    let n = font.ranges.len();
    let total = font.glyphs.len();
    let mut offset: usize = 0;
    let mut i: usize = 0;
    while i < n
        invariant
            font.wf(),
            i <= n,
            n == font.ranges().len(),
            total == font.glyphs().len(),
            cp == c as int,
            offset == offset_before(font.ranges(), i as int),
            offset <= total,
            forall|q: int|
                0 <= q < i ==> !((#[trigger] font.ranges()[q]).0 <= cp < font.ranges()[q].1),
        decreases n - i,
    {
        let (start, end) = font.ranges[i];
        if start <= cp && cp < end {
            proof {
                lemma_find_range_scan(font.ranges(), cp as int, i as int);
                lemma_offset_before_mono(font.ranges(), i as int + 1, n as int);
            }
            return Some(font.glyphs[offset + (cp - start) as usize]);
        }
        proof {
            lemma_offset_before_mono(font.ranges(), i as int + 1, n as int);
        }
        offset = offset + (end - start) as usize;
        i += 1;
    }
    proof {
        lemma_find_range_scan(font.ranges(), cp as int, n as int);
    }
    None
}

} // verus!
