//! What a frame is made of: where glyphs go in the atlas, how quads are
//! numbered, what each cell and the cursor look like, and which layers are drawn
//! in which order.
use vstd::prelude::*;
use vstd::string::*;

use crate::color::{Rgba, Shade};
use crate::kitty::KITTY_MARKER;
use crate::layout::PaneId;
use crate::palette::{
    from_ansi_rgb, opaque_shade, Color, Palette, Rgb, COLOR_COUNT, NAMED_BACKGROUND, NAMED_CURSOR,
    NAMED_DIM,
};
use crate::text::{opt_text, owned};

verus! {

// ---------------------------------------------------------------------------
// The glyph atlas
// ---------------------------------------------------------------------------

/// Side of the largest atlas that may grow further, and the largest side of a
/// glyph.
pub const ATLAS_LIMIT: u32 = 0x1000_0000;

/// Transparent border around each glyph in the atlas.
pub const ATLAS_PAD: u32 = 1;

/// Fills a square texture with slots, row by row from its upper left corner.
#[derive(Clone, Copy, PartialEq, Eq, Debug, Structural)]
pub struct AtlasPacker {
    pub size: u32,
    pub next_x: u32,
    pub next_y: u32,
    pub row_h: u32,
}

/// A rectangle in the atlas.
#[derive(Clone, Copy, PartialEq, Eq, Debug, Structural)]
pub struct Slot {
    pub x: u32,
    pub y: u32,
    pub w: u32,
    pub h: u32,
}

/// Whether a packer can go on without its numbers getting too large.
pub open spec fn packer_ok(p: AtlasPacker) -> bool {
    1 <= p.size <= 2 * ATLAS_LIMIT && p.next_x <= ATLAS_LIMIT + 3 && p.next_y + p.row_h <= p.size
}

/// The packer once a new row has been started, if the current one has no room
/// for a slot of a width.
pub open spec fn wrapped(p: AtlasPacker, slot_w: int) -> AtlasPacker {
    if p.next_x + slot_w + 1 > p.size {
        AtlasPacker { next_x: 1, next_y: (p.next_y + p.row_h + 1) as u32, row_h: 0, ..p }
    } else {
        p
    }
}

/// The packer once it has grown, if there is no room below for a slot of a
/// height.
pub open spec fn grown(p: AtlasPacker, slot_h: int) -> AtlasPacker {
    if p.next_y + slot_h + 1 > p.size {
        AtlasPacker { size: (p.size * 2) as u32, ..p }
    } else {
        p
    }
}

/// The packer after a glyph was put in, and the slot that the glyph got with a
/// border around it. There is none for an empty glyph, or for one that does not
/// fit even after the atlas has grown.
pub open spec fn packed(p: AtlasPacker, w: u32, h: u32) -> (AtlasPacker, Option<Slot>) {
    let slot_w = w + 2 * ATLAS_PAD;
    let slot_h = h + 2 * ATLAS_PAD;
    if w == 0 || h == 0 {
        (p, None)
    } else {
        let q = grown(wrapped(p, slot_w), slot_h);
        if q.next_y + slot_h + 1 > q.size {
            (q, None)
        } else {
            (
                AtlasPacker {
                    next_x: (q.next_x + slot_w) as u32,
                    row_h: if q.row_h < slot_h {
                        slot_h as u32
                    } else {
                        q.row_h
                    },
                    ..q
                },
                Some(Slot { x: q.next_x, y: q.next_y, w: slot_w as u32, h: slot_h as u32 }),
            )
        }
    }
}

impl AtlasPacker {
    /// An empty atlas.
    pub fn new(size: u32) -> (r: AtlasPacker)
        requires
            1 <= size <= 2 * ATLAS_LIMIT,
        ensures
            r == (AtlasPacker { size, next_x: 1, next_y: 1, row_h: 0 }),
            packer_ok(r),
    {
        AtlasPacker { size, next_x: 1, next_y: 1, row_h: 0 }
    }

    /// Find a slot for a glyph of `w` by `h` pixels. The atlas doubles its side
    /// when it is full; slots keep their places.
    pub fn insert(&mut self, w: u32, h: u32) -> (r: Option<Slot>)
        requires
            packer_ok(*old(self)),
            old(self).size <= ATLAS_LIMIT,
            w <= ATLAS_LIMIT,
            h <= ATLAS_LIMIT,
        ensures
            (*final(self), r) == packed(*old(self), w, h),
            packer_ok(*final(self)),
            w == 0 || h == 0 ==> r is None && *final(self) == *old(self),
            r matches Some(slot) ==> slot.w == w + 2 && slot.h == h + 2,
            r matches Some(slot) ==> {
                let same_row = old(self).next_x + w + 3 <= old(self).size;
                &&& same_row ==> slot.x == old(self).next_x && slot.y == old(self).next_y
                &&& !same_row ==> slot.x == 1 && slot.y == old(self).next_y + old(self).row_h + 1
                &&& final(self).next_x == slot.x + w + 2 && final(self).next_y == slot.y
                &&& final(self).size == old(self).size || final(self).size == 2 * old(self).size
                &&& slot.y + h + 3 <= final(self).size
                &&& slot.y + h + 3 <= old(self).size ==> final(self).size == old(self).size
            },
            w > 0 && h > 0 && old(self).next_y + old(self).row_h + h + 4 <= 2 * old(self).size
                ==> r is Some,
    {
        if w == 0 || h == 0 {
            return None;
        }
        let slot_w: u32 = w + 2 * ATLAS_PAD;
        let slot_h: u32 = h + 2 * ATLAS_PAD;
        if self.next_x + slot_w + 1 > self.size {
            self.next_x = 1;
            self.next_y = self.next_y + self.row_h + 1;
            self.row_h = 0;
        }
        if self.next_y + slot_h + 1 > self.size {
            self.size = self.size * 2;
        }
        if self.next_y + slot_h + 1 > self.size {
            return None;
        }
        let slot = Slot { x: self.next_x, y: self.next_y, w: slot_w, h: slot_h };
        self.next_x = self.next_x + slot_w;
        if self.row_h < slot_h {
            self.row_h = slot_h;
        }
        Some(slot)
    }
}

/// Whether a slot lies where a packer has already been: in an earlier row, or
/// further left in the current one.
pub open spec fn behind(p: AtlasPacker, s: Slot) -> bool {
    s.y + s.h <= p.next_y || (s.y == p.next_y && s.x + s.w <= p.next_x && s.h <= p.row_h)
}

/// Whether two slots have no pixel in common.
pub open spec fn apart(a: Slot, b: Slot) -> bool {
    a.x + a.w <= b.x || b.x + b.w <= a.x || a.y + a.h <= b.y || b.y + b.h <= a.y
}

/// A glyph never gets a slot that overlaps an earlier one, and both stay behind
/// the packer, so that no later glyph overlaps them either.
pub proof fn law_slots_do_not_overlap(p: AtlasPacker, earlier: Slot, w: u32, h: u32)
    requires
        packer_ok(p),
        p.size <= ATLAS_LIMIT,
        w <= ATLAS_LIMIT,
        h <= ATLAS_LIMIT,
        behind(p, earlier),
    ensures
        ({
            let (after, slot) = packed(p, w, h);
            behind(after, earlier) && (slot matches Some(s) ==> apart(s, earlier) && behind(
                after,
                s,
            ))
        }),
{
}

/// A glyph that is not wider than the atlas gets a slot inside it, with room for
/// the glyph and its border.
pub proof fn law_slots_stay_inside(p: AtlasPacker, w: u32, h: u32)
    requires
        packer_ok(p),
        p.size <= ATLAS_LIMIT,
        h <= ATLAS_LIMIT,
        w + 2 * ATLAS_PAD + 2 <= p.size,
    ensures
        ({
            let (after, slot) = packed(p, w, h);
            slot matches Some(s) ==> s.x + s.w <= after.size && s.y + s.h <= after.size && s.w == w
                + 2 * ATLAS_PAD && s.h == h + 2 * ATLAS_PAD
        }),
{
}

/// The atlas never shrinks, so a slot that was inside stays inside.
pub proof fn law_atlas_never_shrinks(p: AtlasPacker, w: u32, h: u32)
    requires
        packer_ok(p),
        p.size <= ATLAS_LIMIT,
    ensures
        p.size <= packed(p, w, h).0.size,
{
}

// ---------------------------------------------------------------------------
// Glyph pixels
// ---------------------------------------------------------------------------

/// Four bytes a pixel: a mask counts for every channel, color comes as it is.
pub open spec fn rgba_of(data: Seq<u8>, is_color: bool) -> Seq<u8> {
    if is_color {
        data
    } else {
        Seq::new(data.len() * 4, |i: int| data[i / 4])
    }
}

/// The pixels of a glyph with a transparent border of one pixel around them.
pub open spec fn padded(pixels: Seq<u8>, w: nat, h: nat) -> Seq<u8> {
    Seq::new(
        (w + 2) * (h + 2) * 4,
        |i: int|
            {
                let row = i / 4 / (w + 2) as int;
                let col = i / 4 % (w + 2) as int;
                if 1 <= row <= h && 1 <= col <= w {
                    pixels[((row - 1) * w + (col - 1)) * 4 + i % 4]
                } else {
                    0u8
                }
            },
    )
}

/// Four bytes a pixel from the data of a glyph.
pub fn glyph_pixels(data: &Vec<u8>, is_color: bool) -> (r: Vec<u8>)
    ensures
        r@ == rgba_of(data@, is_color),
        is_color ==> r@ == data@,
        !is_color ==> r@.len() == data@.len() * 4 && forall|i: int|
            0 <= i < r@.len() ==> #[trigger] r@[i] == data@[i / 4],
{
    let mut out: Vec<u8> = Vec::new();
    let mut i: usize = 0;
    if is_color {
        while i < data.len()
            invariant
                i <= data@.len(),
                out@ == data@.take(i as int),
            decreases data@.len() - i,
        {
            out.push(data[i]);
            assert(data@.take(i as int).push(data@[i as int]) =~= data@.take(i + 1));
            i += 1;
        }
        assert(data@.take(i as int) =~= data@);
    } else {
        while i < data.len()
            invariant
                i <= data@.len(),
                out@ == rgba_of(data@.take(i as int), false),
            decreases data@.len() - i,
        {
            let a = data[i];
            out.push(a);
            out.push(a);
            out.push(a);
            out.push(a);
            i += 1;
            assert(out@ =~= rgba_of(data@.take(i as int), false));
        }
        assert(data@.take(i as int) =~= data@);
    }
    out
}

/// A pixel of a glyph lies within its data.
proof fn lemma_pixel(row: int, col: int, w: int, h: int)
    requires
        1 <= row <= h,
        1 <= col <= w,
    ensures
        0 <= (row - 1) * w,
        (row - 1) * w + (col - 1) < w * h,
{
    assert(0 <= (row - 1) * w) by (nonlinear_arith)
        requires
            1 <= row,
            1 <= w,
    ;
    assert((row - 1) * w + w <= w * h) by (nonlinear_arith)
        requires
            row <= h,
            0 <= w,
    ;
}

/// The pixels of a glyph with a transparent border of one pixel around them,
/// ready to be written into its slot.
pub fn pad_glyph(pixels: &Vec<u8>, w: u32, h: u32) -> (r: Vec<u8>)
    requires
        pixels@.len() == w * h * 4,
        (w + 2) * (h + 2) * 4 <= u32::MAX,
    ensures
        r@ == padded(pixels@, w as nat, h as nat),
{
    proof {
        assert((w + 2) * 2 <= (w + 2) * (h + 2)) by (nonlinear_arith);
        assert((h + 2) * 2 <= (w + 2) * (h + 2)) by (nonlinear_arith);
    }
    let slot_w: usize = w as usize + 2;
    let slot_h: usize = h as usize + 2;
    let total: usize = slot_w * slot_h;
    let len: usize = pixels.len();
    let ghost all = padded(pixels@, w as nat, h as nat);
    assert(all.len() == total * 4);
    let mut out: Vec<u8> = Vec::new();
    let mut p: usize = 0;
    assert(all.take(0) =~= out@);
    while p < total
        invariant
            p <= total,
            slot_w == w + 2,
            slot_h == h + 2,
            total == slot_w * slot_h,
            total * 4 <= u32::MAX,
            len == pixels@.len(),
            pixels@.len() == w * h * 4,
            all == padded(pixels@, w as nat, h as nat),
            all.len() == total * 4,
            out@ == all.take(p * 4),
        decreases total - p,
    {
        let row: usize = p / slot_w;
        let col: usize = p % slot_w;
        let ghost before = out@;
        if 1 <= row && row <= h as usize && 1 <= col && col <= w as usize {
            proof {
                lemma_pixel(row as int, col as int, w as int, h as int);
                assert(len == w * h * 4);
            }
            let at: usize = ((row - 1) * w as usize + (col - 1)) * 4;
            out.push(pixels[at]);
            out.push(pixels[at + 1]);
            out.push(pixels[at + 2]);
            out.push(pixels[at + 3]);
        } else {
            out.push(0);
            out.push(0);
            out.push(0);
            out.push(0);
        }
        proof {
            let next = all.take((p + 1) * 4);
            assert forall|i: int| p * 4 <= i < (p + 1) * 4 implies out@[i] == all[i] by {
                assert(i / 4 == p);
            }
            assert(out@ =~= next);
        }
        p += 1;
    }
    assert(all.take(p * 4) =~= all);
    out
}

// ---------------------------------------------------------------------------
// Quads
// ---------------------------------------------------------------------------

/// How many vertices the buffers hold.
pub const MAX_VERTS: usize = 131072;

/// The vertex numbers of the two triangles of quad `q`.
pub open spec fn quad_corner(q: int, k: int) -> int {
    q * 4 + (if k == 0 || k == 3 {
        0int
    } else if k == 1 {
        1
    } else if k == 2 || k == 4 {
        2
    } else {
        3
    })
}

/// The vertex numbers of `n` quads, two triangles each.
pub fn quad_indices(n: usize) -> (r: Vec<u32>)
    requires
        n * 4 <= MAX_VERTS,
    ensures
        r@.len() == n * 6,
        forall|i: int| 0 <= i < n * 6 ==> #[trigger] r@[i] == quad_corner(i / 6, i % 6),
{
    let mut out: Vec<u32> = Vec::new();
    let mut q: usize = 0;
    while q < n
        invariant
            q <= n,
            n * 4 <= MAX_VERTS,
            out@.len() == q * 6,
            forall|i: int| 0 <= i < q * 6 ==> #[trigger] out@[i] == quad_corner(i / 6, i % 6),
        decreases n - q,
    {
        let base: u32 = q as u32 * 4;
        let ghost before = out@;
        out.push(base);
        out.push(base + 1);
        out.push(base + 2);
        out.push(base);
        out.push(base + 2);
        out.push(base + 3);
        assert forall|i: int| 0 <= i < (q + 1) * 6 implies #[trigger] out@[i] == quad_corner(
            i / 6,
            i % 6,
        ) by {
            if i < q * 6 {
                assert(out@[i] == before[i]);
            } else {
                assert(i / 6 == q);
            }
        }
        q += 1;
    }
    out
}

/// A stretch of indices that is drawn with one texture.
#[derive(Clone, Copy, PartialEq, Eq, Debug, Structural)]
pub struct Segment {
    pub start: u32,
    pub end: u32,
}

/// The stretches of a frame: the background image, solid rectangles, glyphs.
#[derive(Clone, Copy, PartialEq, Eq, Debug, Structural)]
pub struct Segments {
    pub image: Segment,
    pub solid: Segment,
    pub glyphs: Segment,
}

/// Where each stretch of a frame begins and ends. A stretch without quads is
/// empty and is not drawn.
pub fn segments(images: u32, rects: u32, glyphs: u32) -> (r: Segments)
    requires
        (images + rects + glyphs) * 4 <= MAX_VERTS,
    ensures
        r.image == (Segment { start: 0, end: (images * 6) as u32 }),
        r.solid == (Segment { start: r.image.end, end: (r.image.end + rects * 6) as u32 }),
        r.glyphs == (Segment { start: r.solid.end, end: (r.solid.end + glyphs * 6) as u32 }),
        r.glyphs.end == (images + rects + glyphs) * 6,
{
    let a: u32 = images * 6;
    let b: u32 = a + rects * 6;
    let c: u32 = b + glyphs * 6;
    Segments {
        image: Segment { start: 0, end: a },
        solid: Segment { start: a, end: b },
        glyphs: Segment { start: b, end: c },
    }
}

/// The first choice that is wanted, or the first of all.
pub fn first_wanted(wanted: &Vec<bool>) -> (r: usize)
    requires
        wanted@.len() > 0,
    ensures
        r < wanted@.len(),
        wanted@.contains(true) ==> wanted@[r as int],
        forall|i: int| 0 <= i < r ==> !#[trigger] wanted@[i],
        !wanted@.contains(true) ==> r == 0,
{
    let mut i: usize = 0;
    while i < wanted.len()
        invariant
            i <= wanted@.len(),
            forall|k: int| 0 <= k < i ==> !#[trigger] wanted@[k],
        decreases wanted@.len() - i,
    {
        if wanted[i] {
            return i;
        }
        i += 1;
    }
    0
}

// ---------------------------------------------------------------------------
// Cells
// ---------------------------------------------------------------------------

/// A cell of the terminal grid.
#[derive(Clone, Copy, PartialEq, Eq, Debug, Structural)]
pub struct CellInfo {
    pub c: char,
    pub fg: Color,
    pub bg: Color,
    pub inverse: bool,
    pub dim: bool,
    pub bold: bool,
    pub italic: bool,
    pub underline: bool,
    pub strikeout: bool,
    /// The second half of a wide character.
    pub spacer: bool,
    pub line: i32,
    pub column: usize,
    /// Part of a search match.
    pub matched: bool,
    pub selected: bool,
}

/// The part of the grid that is on screen.
#[derive(Clone, Copy, PartialEq, Eq, Debug, Structural)]
pub struct Viewport {
    pub display_offset: i32,
    pub lines: usize,
    pub cols: usize,
}

/// A character to draw.
#[derive(Clone, Copy, PartialEq, Eq, Debug, Structural)]
pub struct GlyphPlan {
    pub c: char,
    pub bold: bool,
    pub italic: bool,
}

/// What to draw for a cell.
#[derive(Clone, Copy, PartialEq, Eq, Debug, Structural)]
pub struct CellPlan {
    pub row: usize,
    pub col: usize,
    pub fg: Shade,
    /// A background of its own; the pane shows through otherwise.
    pub background: Option<Shade>,
    pub matched: bool,
    pub selected: bool,
    pub glyph: Option<GlyphPlan>,
    pub underline: bool,
    pub strikeout: bool,
}

/// Where a grid position is on screen, if it is.
pub open spec fn on_screen(view: Viewport, line: i32, column: usize) -> Option<(usize, usize)> {
    let row = line + view.display_offset;
    if 0 <= row < view.lines && column < view.cols {
        Some((row as usize, column))
    } else {
        None
    }
}

/// The color that a cell's text is drawn in. A dim cell takes one of the dim
/// colors where its color is one of the first eight.
pub open spec fn text_shade(
    palette: Palette,
    dynamic: Seq<Option<Rgb>>,
    color: Color,
    dim: bool,
) -> Shade {
    if dim && (color matches Color::Named(n) && n < 8) {
        let n = color->Named_0 as int;
        match dynamic[NAMED_DIM + n] {
            Some(rgb) => opaque_shade(rgb),
            None => palette.dim@[n],
        }
    } else {
        palette.shade(color, dynamic)
    }
}

/// What to draw for a cell. Blanks and image markers have no glyph.
pub open spec fn planned_cell(
    cell: CellInfo,
    view: Viewport,
    palette: Palette,
    dynamic: Seq<Option<Rgb>>,
    search_active: bool,
) -> Option<CellPlan> {
    let fg = if cell.inverse {
        cell.bg
    } else {
        cell.fg
    };
    let bg = if cell.inverse {
        cell.fg
    } else {
        cell.bg
    };
    match on_screen(view, cell.line, cell.column) {
        Some((row, col)) => if cell.spacer {
            None
        } else {
            Some(
                CellPlan {
                    row,
                    col,
                    fg: text_shade(palette, dynamic, fg, cell.dim),
                    background: if bg == Color::Named(NAMED_BACKGROUND) {
                        None
                    } else {
                        Some(palette.shade(bg, dynamic))
                    },
                    matched: search_active && cell.matched,
                    selected: cell.selected,
                    glyph: if cell.c == ' ' || cell.c == KITTY_MARKER {
                        None
                    } else {
                        Some(GlyphPlan { c: cell.c, bold: cell.bold, italic: cell.italic })
                    },
                    underline: cell.underline,
                    strikeout: cell.strikeout,
                },
            )
        },
        None => None,
    }
}

/// Where a grid position is on screen, if it is.
fn screen_position(view: Viewport, line: i32, column: usize) -> (r: Option<(usize, usize)>)
    ensures
        r == on_screen(view, line, column),
{
    let row: i64 = line as i64 + view.display_offset as i64;
    if row >= 0 && (row as u64) < view.lines as u64 && column < view.cols {
        Some((row as usize, column))
    } else {
        None
    }
}

/// The color that a cell's text is drawn in.
fn cell_foreground(palette: &Palette, dynamic: &Vec<Option<Rgb>>, color: Color, dim: bool) -> (r:
    Shade)
    requires
        dynamic@.len() == COLOR_COUNT,
    ensures
        r == text_shade(*palette, dynamic@, color, dim),
{
    if dim {
        if let Color::Named(n) = color {
            if n < 8 {
                return match dynamic[NAMED_DIM + n] {
                    Some(rgb) => from_ansi_rgb(rgb),
                    None => palette.dim[n],
                };
            }
        }
    }
    palette.resolve(color, dynamic)
}

/// Decide what to draw for a cell; `None` for one that is not on screen.
pub fn plan_cell(
    cell: &CellInfo,
    view: Viewport,
    palette: &Palette,
    dynamic: &Vec<Option<Rgb>>,
    search_active: bool,
) -> (r: Option<CellPlan>)
    requires
        dynamic@.len() == COLOR_COUNT,
    ensures
        r == planned_cell(*cell, view, *palette, dynamic@, search_active),
        r is Some <==> !cell.spacer && 0 <= cell.line + view.display_offset < view.lines
            && cell.column < view.cols,
        r matches Some(plan) ==> plan.row == cell.line + view.display_offset && plan.col
            == cell.column,
        r matches Some(plan) ==> plan.underline == cell.underline,
        r matches Some(plan) ==> plan.strikeout == cell.strikeout,
        r matches Some(plan) ==> plan.selected == cell.selected,
        r matches Some(plan) ==> plan.matched == (search_active && cell.matched),
        r matches Some(plan) ==> (plan.glyph is None <==> cell.c == ' ' || cell.c == '\u{e000}'),
        r matches Some(plan) ==> (plan.glyph matches Some(glyph) ==> glyph.c == cell.c && glyph.bold
            == cell.bold && glyph.italic == cell.italic),
        r matches Some(plan) ==> {
            let back = if cell.inverse {
                cell.fg
            } else {
                cell.bg
            };
            plan.background == (if back == Color::Named(257) {
                None
            } else {
                Some(palette.shade(back, dynamic@))
            })
        },
        r matches Some(plan) ==> {
            let front = if cell.inverse {
                cell.bg
            } else {
                cell.fg
            };
            let low = front matches Color::Named(n) && n < 8;
            &&& !cell.dim || !low ==> plan.fg == palette.shade(front, dynamic@)
            &&& cell.dim && low ==> plan.fg == match dynamic@[259 + front->Named_0] {
                Some(rgb) => opaque_shade(rgb),
                None => palette.dim@[front->Named_0 as int],
            }
        },
{
    if cell.spacer {
        return None;
    }
    let (row, col) = match screen_position(view, cell.line, cell.column) {
        Some(at) => at,
        None => return None,
    };
    let (fg, bg) = if cell.inverse {
        (cell.bg, cell.fg)
    } else {
        (cell.fg, cell.bg)
    };
    let default_bg = match bg {
        Color::Named(n) => n == NAMED_BACKGROUND,
        _ => false,
    };
    let background = if default_bg {
        None
    } else {
        Some(palette.resolve(bg, dynamic))
    };
    let glyph = if cell.c == ' ' || cell.c == KITTY_MARKER {
        None
    } else {
        Some(GlyphPlan { c: cell.c, bold: cell.bold, italic: cell.italic })
    };
    Some(
        CellPlan {
            row,
            col,
            fg: cell_foreground(palette, dynamic, fg, cell.dim),
            background,
            matched: search_active && cell.matched,
            selected: cell.selected,
            glyph,
            underline: cell.underline,
            strikeout: cell.strikeout,
        },
    )
}

// ---------------------------------------------------------------------------
// The cursor
// ---------------------------------------------------------------------------

/// The shape of the cursor.
#[derive(Clone, Copy, PartialEq, Eq, Debug, Structural)]
pub enum CursorShape {
    Block,
    Underline,
    Beam,
    HollowBlock,
    Hidden,
}

/// The cursor of a pane.
#[derive(Clone, Copy, PartialEq, Eq, Debug, Structural)]
pub struct CursorInfo {
    pub shape: CursorShape,
    pub line: i32,
    pub column: usize,
    pub blinking: bool,
    /// The character under the cursor.
    pub under: char,
}

/// What to draw for the cursor.
#[derive(Clone, Copy, PartialEq, Eq, Debug)]
pub struct CursorPlan {
    pub row: usize,
    pub col: usize,
    pub shape: CursorShape,
    pub color: Shade,
    /// The character to draw again on top of a block, and its color.
    pub glyph: Option<(char, Rgba)>,
}

/// What to draw for the cursor: nothing while it is hidden, in a pane without
/// focus, off screen, or in the dark half of a blink. A block shows the
/// character under it in the color that the theme has for that.
pub open spec fn planned_cursor(
    cursor: CursorInfo,
    view: Viewport,
    palette: Palette,
    dynamic: Seq<Option<Rgb>>,
    focused: bool,
    blink_on: bool,
) -> Option<CursorPlan> {
    match on_screen(view, cursor.line, cursor.column) {
        Some((row, col)) => if cursor.shape == CursorShape::Hidden || !focused || (cursor.blinking
            && !blink_on) {
            None
        } else {
            Some(
                CursorPlan {
                    row,
                    col,
                    shape: cursor.shape,
                    color: match dynamic[NAMED_CURSOR as int] {
                        Some(rgb) => opaque_shade(rgb),
                        None => palette.cursor,
                    },
                    glyph: if cursor.shape == CursorShape::Block && palette.cursor_text is Some
                        && cursor.under != ' ' && cursor.under != KITTY_MARKER {
                        Some((cursor.under, palette.cursor_text->0))
                    } else {
                        None
                    },
                },
            )
        },
        None => None,
    }
}

/// Decide what to draw for the cursor.
pub fn plan_cursor(
    cursor: &CursorInfo,
    view: Viewport,
    palette: &Palette,
    dynamic: &Vec<Option<Rgb>>,
    focused: bool,
    blink_on: bool,
) -> (r: Option<CursorPlan>)
    requires
        dynamic@.len() == COLOR_COUNT,
    ensures
        r == planned_cursor(*cursor, view, *palette, dynamic@, focused, blink_on),
        r is Some <==> focused && !(cursor.shape is Hidden) && (!cursor.blinking || blink_on) && 0
            <= cursor.line + view.display_offset < view.lines && cursor.column < view.cols,
        r matches Some(plan) ==> plan.row == cursor.line + view.display_offset && plan.col
            == cursor.column && plan.shape == cursor.shape,
        r matches Some(plan) ==> plan.color == match dynamic@[258] {
            Some(rgb) => opaque_shade(rgb),
            None => palette.cursor,
        },
        r matches Some(plan) ==> (plan.glyph is Some <==> cursor.shape is Block
            && palette.cursor_text is Some && cursor.under != ' ' && cursor.under != '\u{e000}'),
        r matches Some(plan) ==> (plan.glyph matches Some(glyph) ==> glyph.0 == cursor.under && Some(
            glyph.1,
        ) == palette.cursor_text),
{
    if cursor.shape == CursorShape::Hidden || !focused || (cursor.blinking && !blink_on) {
        return None;
    }
    let (row, col) = match screen_position(view, cursor.line, cursor.column) {
        Some(at) => at,
        None => return None,
    };
    let color = match dynamic[NAMED_CURSOR] {
        Some(rgb) => from_ansi_rgb(rgb),
        None => palette.cursor,
    };
    let mut glyph: Option<(char, Rgba)> = None;
    if cursor.shape == CursorShape::Block && cursor.under != ' ' && cursor.under != KITTY_MARKER {
        if let Some(text) = palette.cursor_text {
            glyph = Some((cursor.under, text));
        }
    }
    Some(CursorPlan { row, col, shape: cursor.shape, color, glyph })
}

// ---------------------------------------------------------------------------
// Frames
// ---------------------------------------------------------------------------

/// How long the message of a command stays, in milliseconds.
pub const MESSAGE_MS: u128 = 4000;

/// How long the bell flashes, in milliseconds.
pub const BELL_MS: u128 = 250;

/// What the window is painted with first.
#[derive(Clone, Copy, PartialEq, Eq, Debug, Structural)]
pub enum Background {
    Image,
    Gradient,
    Flat,
}

/// What a frame shows besides its panes.
#[derive(Debug, Clone, PartialEq, Eq)]
pub struct FramePlan {
    pub background: Background,
    /// Index of the focused pane among the rectangles.
    pub focused: Option<usize>,
    /// Texts of the bars over the focused pane.
    pub search: Option<String>,
    pub command: Option<String>,
    pub message: Option<String>,
    pub flash: bool,
    /// The message or the bell has had its time.
    pub forget_message: bool,
    pub forget_bell: bool,
}

/// The text of a bar, with a block for the cursor.
pub open spec fn bar_text(label: Seq<char>, text: Option<Seq<char>>) -> Option<Seq<char>> {
    match text {
        Some(text) => Some(label + text + "\u{2588}"@),
        None => None,
    }
}

/// A bar is shown only over a focused pane.
pub open spec fn shown(focused: bool, text: Option<Seq<char>>) -> Option<Seq<char>> {
    if focused {
        text
    } else {
        None
    }
}

/// The text of a bar, with a block for the cursor.
fn bar(label: &str, text: &Option<String>) -> (r: Option<String>)
    ensures
        opt_text(r) == bar_text(label@, opt_text(*text)),
{
    match text {
        Some(text) => {
            let mut out = owned(label);
            out.append(text.as_str());
            out.append("\u{2588}");
            Some(out)
        },
        None => None,
    }
}

/// Decide what a frame shows besides its panes. An image comes before a
/// gradient, and a gradient before a flat color. Bars stand over the focused
/// pane; a message goes after four seconds, the flash of a bell after a quarter
/// of one.
pub fn plan_frame(
    has_image: bool,
    has_gradient: bool,
    panes: &Vec<PaneId>,
    focused: PaneId,
    search: &Option<String>,
    command: &Option<String>,
    message: &Option<String>,
    message_age: u128,
    bell_age: Option<u128>,
) -> (r: FramePlan)
    ensures
        r.background == (if has_image {
            Background::Image
        } else if has_gradient {
            Background::Gradient
        } else {
            Background::Flat
        }),
        match r.focused {
            Some(i) => i < panes@.len() && panes@[i as int] == focused && forall|k: int|
                0 <= k < i ==> #[trigger] panes@[k] != focused,
            None => !panes@.contains(focused),
        },
        opt_text(r.search) == shown(
            r.focused is Some,
            bar_text("Search: "@, opt_text(*search)),
        ),
        opt_text(r.command) == shown(r.focused is Some, bar_text(""@, opt_text(*command))),
        opt_text(r.message) == shown(
            r.focused is Some && message_age < MESSAGE_MS,
            opt_text(*message),
        ),
        r.forget_message == (message is Some && message_age >= MESSAGE_MS),
        r.flash == (bell_age is Some && bell_age->0 < BELL_MS),
        r.forget_bell == (bell_age is Some && bell_age->0 >= BELL_MS),
        r.message is Some <==> r.focused is Some && message is Some && message_age < 4000,
        r.forget_message <==> message is Some && message_age >= 4000,
        r.flash <==> bell_age is Some && bell_age->0 < 250,
        r.forget_bell <==> bell_age is Some && bell_age->0 >= 250,
{
    let background = if has_image {
        Background::Image
    } else if has_gradient {
        Background::Gradient
    } else {
        Background::Flat
    };
    let mut at: Option<usize> = None;
    let mut i: usize = 0;
    while i < panes.len() && at.is_none()
        invariant
            i <= panes@.len(),
            match at {
                Some(n) => n < panes@.len() && panes@[n as int] == focused && forall|k: int|
                    0 <= k < n ==> #[trigger] panes@[k] != focused,
                None => forall|k: int| 0 <= k < i ==> #[trigger] panes@[k] != focused,
            },
        decreases panes@.len() - i,
    {
        if panes[i] == focused {
            at = Some(i);
        }
        i += 1;
    }
    let over_pane = at.is_some();
    let search_text = if over_pane {
        bar("Search: ", search)
    } else {
        None
    };
    let command_text = if over_pane {
        bar("", command)
    } else {
        None
    };
    let message_text = match message {
        Some(text) => if over_pane && message_age < MESSAGE_MS {
            Some(owned(text.as_str()))
        } else {
            None
        },
        None => None,
    };
    let (flash, forget_bell) = match bell_age {
        Some(age) => (age < BELL_MS, age >= BELL_MS),
        None => (false, false),
    };
    FramePlan {
        background,
        focused: at,
        search: search_text,
        command: command_text,
        message: message_text,
        flash,
        forget_message: message.is_some() && message_age >= MESSAGE_MS,
        forget_bell,
    }
}

// ---------------------------------------------------------------------------
// Laws
// ---------------------------------------------------------------------------

/// The pixel of a glyph at `x`, `y` stands one further right and one further
/// down in its slot, with all of its channels.
pub proof fn law_glyph_stands_inside_border(
    pixels: Seq<u8>,
    w: nat,
    h: nat,
    x: int,
    y: int,
    channel: int,
)
    requires
        0 <= x < w,
        0 <= y < h,
        0 <= channel < 4,
    ensures
        0 <= ((y + 1) * (w + 2) + x + 1) * 4 + channel < (w + 2) * (h + 2) * 4,
        padded(pixels, w, h)[((y + 1) * (w + 2) + x + 1) * 4 + channel] == pixels[(y * w + x) * 4
            + channel],
{
    let at = (y + 1) * (w + 2) + x + 1;
    lemma_slot_position(w as int, h as int, x + 1, y + 1);
    let i = at * 4 + channel;
    assert(i / 4 == at && i % 4 == channel);
}

/// The border around a glyph is transparent black on all four sides.
pub proof fn law_border_is_transparent(
    pixels: Seq<u8>,
    w: nat,
    h: nat,
    col: int,
    row: int,
    channel: int,
)
    requires
        0 <= col < w + 2,
        0 <= row < h + 2,
        col == 0 || col == w + 1 || row == 0 || row == h + 1,
        0 <= channel < 4,
    ensures
        0 <= (row * (w + 2) + col) * 4 + channel < (w + 2) * (h + 2) * 4,
        padded(pixels, w, h)[(row * (w + 2) + col) * 4 + channel] == 0,
        padded(pixels, w, h).len() == (w + 2) * (h + 2) * 4,
{
    let at = row * (w + 2) + col;
    lemma_slot_position(w as int, h as int, col, row);
    let i = at * 4 + channel;
    assert(i / 4 == at && i % 4 == channel);
}

/// A position in a slot is told from its row and column and back.
proof fn lemma_slot_position(w: int, h: int, col: int, row: int)
    requires
        0 <= w,
        0 <= h,
        0 <= col < w + 2,
        0 <= row < h + 2,
    ensures
        0 <= row * (w + 2) + col < (w + 2) * (h + 2),
        (row * (w + 2) + col) / (w + 2) == row,
        (row * (w + 2) + col) % (w + 2) == col,
{
    let d = w + 2;
    assert(row * d + d <= d * (h + 2)) by (nonlinear_arith)
        requires
            0 <= row < h + 2,
            0 < d,
    ;
    assert(0 <= row * d) by (nonlinear_arith)
        requires
            0 <= row,
            0 < d,
    ;
    vstd::arithmetic::div_mod::lemma_fundamental_div_mod_converse(row * d + col, d, row, col);
}

/// A quad is drawn as two triangles that share the diagonal from its first corner
/// to its third.
pub proof fn law_quad_is_two_triangles(q: int)
    ensures
        quad_corner(q, 0) == 4 * q,
        quad_corner(q, 1) == 4 * q + 1,
        quad_corner(q, 2) == 4 * q + 2,
        quad_corner(q, 3) == 4 * q,
        quad_corner(q, 4) == 4 * q + 2,
        quad_corner(q, 5) == 4 * q + 3,
{
}

/// A bar shows its label, then its text, then a block for the cursor, and nothing
/// without a text or a focused pane.
pub proof fn law_bar_ends_in_a_block(label: Seq<char>, text: Seq<char>)
    ensures
        bar_text(label, Some(text)) == Some(label + text + seq!['\u{2588}']),
        bar_text(label, None) is None,
        shown(true, Some(text)) == Some(text),
        shown(false, Some(text)) is None,
        shown(true, None) is None,
{
    reveal_strlit("\u{2588}");
    assert("\u{2588}"@ =~= seq!['\u{2588}']);
}

/// Inverse video is the same as swapping the two colors of a cell.
pub proof fn law_inverse_swaps_colors(
    cell: CellInfo,
    view: Viewport,
    palette: Palette,
    dynamic: Seq<Option<Rgb>>,
    search_active: bool,
)
    ensures
        ({
            let swapped = CellInfo { fg: cell.bg, bg: cell.fg, inverse: !cell.inverse, ..cell };
            planned_cell(swapped, view, palette, dynamic, search_active) == planned_cell(
                cell,
                view,
                palette,
                dynamic,
                search_active,
            )
        }),
{
}

/// A cell that is no spacer is drawn where it is on screen, with its own
/// character, weight, slant, lines and selection.
pub proof fn law_cell_is_drawn_as_it_is(
    cell: CellInfo,
    view: Viewport,
    palette: Palette,
    dynamic: Seq<Option<Rgb>>,
    search_active: bool,
)
    requires
        !cell.spacer,
        0 <= cell.line + view.display_offset < view.lines,
        cell.column < view.cols,
    ensures
        planned_cell(cell, view, palette, dynamic, search_active) matches Some(plan) && {
            &&& plan.row == cell.line + view.display_offset
            &&& plan.col == cell.column
            &&& plan.underline == cell.underline
            &&& plan.strikeout == cell.strikeout
            &&& plan.selected == cell.selected
            &&& plan.matched == (cell.matched && search_active)
            &&& cell.c != ' ' && cell.c != '\u{e000}' ==> plan.glyph == Some(
                GlyphPlan { c: cell.c, bold: cell.bold, italic: cell.italic },
            )
        },
{
}

/// Scrolling back moves everything down by as many rows: a cell that is drawn in
/// a row is drawn that much lower in a view that is scrolled further back.
pub proof fn law_scrolling_moves_cells(
    cell: CellInfo,
    view: Viewport,
    by: int,
    palette: Palette,
    dynamic: Seq<Option<Rgb>>,
    search_active: bool,
)
    requires
        0 <= by,
        view.display_offset + by <= i32::MAX,
        0 <= cell.line + view.display_offset,
        cell.line + view.display_offset + by < view.lines,
        !cell.spacer,
        cell.column < view.cols,
    ensures
        ({
            let further = Viewport { display_offset: (view.display_offset + by) as i32, ..view };
            let here = planned_cell(cell, view, palette, dynamic, search_active);
            let there = planned_cell(cell, further, palette, dynamic, search_active);
            here is Some && there is Some && there->0.row == here->0.row + by && there->0.col
                == here->0.col
        }),
{
}

/// A cursor is drawn in its own shape where it is, in the color that a program
/// set or the theme has, and hidden in the dark half of a blink, without focus or
/// off screen.
pub proof fn law_cursor_is_drawn_as_it_is(
    cursor: CursorInfo,
    view: Viewport,
    palette: Palette,
    dynamic: Seq<Option<Rgb>>,
    focused: bool,
    blink_on: bool,
)
    ensures
        ({
            let plan = planned_cursor(cursor, view, palette, dynamic, focused, blink_on);
            let visible = focused && !(cursor.shape is Hidden) && (blink_on || !cursor.blinking);
            let inside = 0 <= cursor.line + view.display_offset < view.lines && cursor.column
                < view.cols;
            &&& plan is Some <==> visible && inside
            &&& plan matches Some(p) ==> p.row == cursor.line + view.display_offset && p.col
                == cursor.column && p.shape == cursor.shape
            &&& plan matches Some(p) ==> (dynamic[258] matches Some(rgb) ==> p.color
                == opaque_shade(rgb)) && (dynamic[258] is None ==> p.color == palette.cursor)
            &&& plan matches Some(p) ==> (p.glyph is Some <==> cursor.shape is Block
                && palette.cursor_text is Some && cursor.under != ' ' && cursor.under
                != '\u{e000}')
            &&& plan matches Some(p) ==> (p.glyph matches Some(glyph) ==> glyph.0 == cursor.under
                && Some(glyph.1) == palette.cursor_text)
        }),
{
}

} // verus!
