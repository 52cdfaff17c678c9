use vstd::prelude::*;

verus! {

/// Side length in texels of the square glyph texture.
pub const TEXTURE_SIZE: u16 = 2048;

/// Where a baked glyph lies in the glyph texture, in texels.
#[derive(Debug, Clone, Copy, PartialEq, Eq, Hash)]
pub struct GlyphTexelMapping {
    pub min_x: u16,
    pub max_x: u16,
    pub min_y: u16,
    pub max_y: u16,
}

/// The packing state of a glyph texture: glyphs are placed left to right in
/// rows; a row is as high as its highest glyph.
#[derive(Debug, Clone, Copy, PartialEq, Eq, Hash)]
pub struct GlyphTextureCursor {
    pub offset_x: u16,
    pub offset_y: u16,
    pub line_height: u16,
}

/// Whether a glyph of width `w` does not fit in what is left of the current row.
pub open spec fn wraps(c: GlyphTextureCursor, w: u16) -> bool {
    TEXTURE_SIZE < c.offset_x + w
}

/// The sums that placing a `w` by `h` glyph computes all fit in a `u16`
/// (an overflow there would stop the program).
pub open spec fn spec_fits_u16(c: GlyphTextureCursor, w: u16, h: u16) -> bool {
    &&& c.offset_y + h <= u16::MAX
    &&& c.offset_x + w <= u16::MAX
    &&& (c.offset_y + h <= TEXTURE_SIZE && wraps(c, w)) ==> (
        c.offset_y + c.line_height <= u16::MAX && c.offset_y + c.line_height + h <= u16::MAX
    )
}

/// The outcome of placing a `w` by `h` glyph: the mapping, if it fits, and the
/// cursor afterwards.
pub open spec fn spec_place(c: GlyphTextureCursor, w: u16, h: u16) -> (
    Option<GlyphTexelMapping>,
    GlyphTextureCursor,
) {
    if TEXTURE_SIZE < c.offset_y + h {
        (None, c)
    } else {
        let row = if wraps(c, w) {
            GlyphTextureCursor {
                offset_x: 0,
                offset_y: (c.offset_y + c.line_height) as u16,
                line_height: h,
            }
        } else {
            c
        };
        if TEXTURE_SIZE < row.offset_y + h {
            (None, row)
        } else {
            (
                Some(
                    GlyphTexelMapping {
                        min_x: row.offset_x,
                        max_x: (row.offset_x + w) as u16,
                        min_y: row.offset_y,
                        max_y: (row.offset_y + h) as u16,
                    },
                ),
                GlyphTextureCursor {
                    offset_x: (row.offset_x + w) as u16,
                    offset_y: row.offset_y,
                    line_height: if row.line_height < h {
                        h
                    } else {
                        row.line_height
                    },
                },
            )
        }
    }
}

impl GlyphTextureCursor {
    /// An empty texture: the first glyph goes to the top-left corner.
    pub fn new() -> (r: GlyphTextureCursor)
        ensures
            r.offset_x == 0 && r.offset_y == 0 && r.line_height == 0,
    {
        GlyphTextureCursor { offset_x: 0, offset_y: 0, line_height: 0 }
    }

    /// Whether `place` can be called for a `w` by `h` glyph.
    pub fn fits_u16(&self, w: u16, h: u16) -> (r: bool)
        ensures
            r == spec_fits_u16(*self, w, h),
    {
        let oy = self.offset_y as u32;
        let ox = self.offset_x as u32;
        let lh = self.line_height as u32;
        let max = u16::MAX as u32;
        if oy + (h as u32) > max || ox + (w as u32) > max {
            return false;
        }
        if oy + (h as u32) <= 2048 && 2048 < ox + (w as u32) {
            oy + lh <= max && oy + lh + (h as u32) <= max
        } else {
            true
        }
    }

    /// Places a `w` by `h` glyph: moves to a new row when the current one is
    /// too full, and gives `None` when the glyph does not fit below. The row
    /// may have been started even when `None` comes back.
    pub fn place(&mut self, w: u16, h: u16) -> (r: Option<GlyphTexelMapping>)
        requires
            spec_fits_u16(*old(self), w, h),
        ensures
            (r, *final(self)) == spec_place(*old(self), w, h),
    {
        if 2048 < self.offset_y + h {
            return None;
        }
        if 2048 < self.offset_x + w {
            self.offset_x = 0;
            self.offset_y = self.offset_y + self.line_height;
            self.line_height = h;
            if 2048 < self.offset_y + h {
                return None;
            }
        }
        let mapping = GlyphTexelMapping {
            min_x: self.offset_x,
            max_x: self.offset_x + w,
            min_y: self.offset_y,
            max_y: self.offset_y + h,
        };
        self.offset_x = self.offset_x + w;
        if self.line_height < h {
            self.line_height = h;
        }
        Some(mapping)
    }
}

/// A glyph no wider than the texture, placed by a cursor whose row has not
/// run past the texture's right edge, lies inside the texture, and the
/// cursor's row still ends within it.
pub proof fn lemma_place_within_texture(c: GlyphTextureCursor, w: u16, h: u16)
    requires
        w <= TEXTURE_SIZE,
        c.offset_x <= TEXTURE_SIZE,
        spec_fits_u16(c, w, h),
    ensures
        spec_place(c, w, h).0 matches Some(m) ==> m.max_x <= TEXTURE_SIZE && m.max_y <= TEXTURE_SIZE
            && m.min_x <= m.max_x && m.min_y <= m.max_y,
        spec_place(c, w, h).1.offset_x <= TEXTURE_SIZE,
{
}


/// Two glyphs share no texel.
pub open spec fn disjoint(a: GlyphTexelMapping, b: GlyphTexelMapping) -> bool {
    ||| a.max_x <= b.min_x
    ||| b.max_x <= a.min_x
    ||| a.max_y <= b.min_y
    ||| b.max_y <= a.min_y
}

/// The glyph lies where the cursor has moved past: in a row above the
/// cursor's, or in the cursor's row left of it and within the row's height.
pub open spec fn behind(c: GlyphTextureCursor, m: GlyphTexelMapping) -> bool {
    ||| m.max_y <= c.offset_y
    ||| (m.min_y == c.offset_y && m.max_x <= c.offset_x && m.max_y <= c.offset_y + c.line_height)
}

/// Placing a glyph keeps every glyph placed before behind the cursor, and
/// the new glyph shares no texel with any of them.
pub proof fn lemma_place_behind(c: GlyphTextureCursor, w: u16, h: u16, m: GlyphTexelMapping)
    requires
        spec_fits_u16(c, w, h),
        behind(c, m),
    ensures
        behind(spec_place(c, w, h).1, m),
        spec_place(c, w, h).0 matches Some(n) ==> disjoint(n, m),
{
}

/// A glyph just placed is behind the cursor.
pub proof fn lemma_placed_behind(c: GlyphTextureCursor, w: u16, h: u16)
    requires
        spec_fits_u16(c, w, h),
    ensures
        spec_place(c, w, h).0 matches Some(n) ==> behind(spec_place(c, w, h).1, n),
{
}

/// The cursor after the first `k` glyphs of `sizes` are placed from `c`.
pub open spec fn cursor_after(c: GlyphTextureCursor, sizes: Seq<(u16, u16)>, k: int) -> GlyphTextureCursor
    decreases k,
{
    if k <= 0 {
        c
    } else {
        let prev = cursor_after(c, sizes, k - 1);
        spec_place(prev, sizes[k - 1].0, sizes[k - 1].1).1
    }
}

/// Where the glyph `k` of `sizes` is placed, if it fits.
pub open spec fn placed_at(c: GlyphTextureCursor, sizes: Seq<(u16, u16)>, k: int) -> Option<GlyphTexelMapping> {
    spec_place(cursor_after(c, sizes, k), sizes[k].0, sizes[k].1).0
}

/// Each glyph placed on a fresh texture shares no texel with any glyph
/// placed before it.
pub proof fn lemma_placements_disjoint(sizes: Seq<(u16, u16)>, i: int, j: int)
    requires
        forall|k: int|
            0 <= k < sizes.len() ==> #[trigger] spec_fits_u16(
                cursor_after(GlyphTextureCursor { offset_x: 0, offset_y: 0, line_height: 0 }, sizes, k),
                sizes[k].0,
                sizes[k].1,
            ),
        0 <= i < j < sizes.len(),
    ensures
        ({
            let c = GlyphTextureCursor { offset_x: 0, offset_y: 0, line_height: 0 };
            placed_at(c, sizes, i) is Some && placed_at(c, sizes, j) is Some ==> disjoint(
                placed_at(c, sizes, i).unwrap(),
                placed_at(c, sizes, j).unwrap(),
            )
        }),
{
    let c = GlyphTextureCursor { offset_x: 0, offset_y: 0, line_height: 0 };
    if placed_at(c, sizes, i) is Some {
        let a = placed_at(c, sizes, i).unwrap();
        lemma_placed_behind(cursor_after(c, sizes, i), sizes[i].0, sizes[i].1);
        assert(cursor_after(c, sizes, i + 1) == spec_place(cursor_after(c, sizes, i), sizes[i].0, sizes[i].1).1);
        lemma_stays_behind(c, sizes, a, i + 1, j);
        lemma_place_behind(cursor_after(c, sizes, j), sizes[j].0, sizes[j].1, a);
        if placed_at(c, sizes, j) is Some {
            let b = placed_at(c, sizes, j).unwrap();
            assert(disjoint(b, a));
            assert(disjoint(a, b));
        }
    }
}

/// Whatever is behind the cursor stays behind it while more glyphs are
/// placed.
proof fn lemma_stays_behind(c: GlyphTextureCursor, sizes: Seq<(u16, u16)>, m: GlyphTexelMapping, from: int, to: int)
    requires
        0 <= from <= to <= sizes.len(),
        behind(cursor_after(c, sizes, from), m),
        forall|k: int| 0 <= k < sizes.len() ==> #[trigger] spec_fits_u16(cursor_after(c, sizes, k), sizes[k].0, sizes[k].1),
    ensures
        behind(cursor_after(c, sizes, to), m),
    decreases to - from,
{
    if from < to {
        lemma_place_behind(cursor_after(c, sizes, from), sizes[from].0, sizes[from].1, m);
        assert(cursor_after(c, sizes, from + 1) == spec_place(cursor_after(c, sizes, from), sizes[from].0, sizes[from].1).1);
        lemma_stays_behind(c, sizes, m, from + 1, to);
    }
}

} // verus!
