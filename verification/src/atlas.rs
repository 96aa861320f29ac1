//! Shelf packing of glyph bitmaps into the single-channel font atlas, and
//! the copy of each glyph's pixels into its place.
use vstd::prelude::*;
use vstd::arithmetic::div_mod::lemma_fundamental_div_mod_converse;

verus! {

/// The gap left between neighbouring glyphs and between shelves.
pub const GLYPH_PADDING: u32 = 1;

/// A placed glyph rectangle: left, top, width, height.
pub type Rect = (int, int, int, int);

/// Whether two rectangles share no pixel.
pub open spec fn disjoint(a: Rect, b: Rect) -> bool {
    ||| a.0 + a.2 <= b.0
    ||| b.0 + b.2 <= a.0
    ||| a.1 + a.3 <= b.1
    ||| b.1 + b.3 <= a.1
}

/// Whether a rectangle lies inside a `w` by `h` image.
pub open spec fn inside(r: Rect, w: int, h: int) -> bool {
    0 <= r.0 && 0 <= r.1 && 0 < r.2 && 0 < r.3 && r.0 + r.2 <= w && r.1 + r.3 <= h
}

/// Where a glyph went.
#[derive(Clone, Copy, PartialEq, Eq, Debug, Structural)]
pub enum Placement {
    /// The glyph has no pixels (a space): it takes no room.
    Invisible,
    /// The atlas is full: the glyph is left out.
    Skipped,
    /// The glyph's top-left corner.
    At { x: u32, y: u32 },
}

/// The cursor (left, shelf top, shelf height) and placement after placing
/// a `gw` by `gh` glyph in a `w` by `h` atlas with cursor `c`; see
/// `AtlasPacker::place`.
pub open spec fn place_step(w: int, h: int, c: (int, int, int), gw: int, gh: int) -> (
    (int, int, int),
    Placement,
) {
    let s = if c.0 + gw + GLYPH_PADDING > w {
        (0, c.1 + c.2 + GLYPH_PADDING, 0)
    } else {
        c
    };
    if gw == 0 || gh == 0 {
        (c, Placement::Invisible)
    } else if s.1 + gh > h {
        (s, Placement::Skipped)
    } else {
        (
            (s.0 + gw + GLYPH_PADDING, s.1, if s.2 > gh { s.2 } else { gh }),
            Placement::At { x: s.0 as u32, y: s.1 as u32 },
        )
    }
}

/// Whether placing a `gw` by `gh` glyph with cursor `c` keeps the cursor
/// sums within `u32`: the glyph's width plus padding, and, when the glyph
/// opens a new shelf, the new shelf's top.
pub open spec fn step_fits(w: int, c: (int, int, int), gw: int, gh: int) -> bool {
    gw > 0 && gh > 0 ==> {
        &&& gw + GLYPH_PADDING <= u32::MAX
        &&& c.0 + gw + GLYPH_PADDING > w ==> c.1 + c.2 + GLYPH_PADDING <= u32::MAX
    }
}

/// The packing cursor: glyphs fill shelves left to right, and a glyph that
/// does not fit on the current shelf opens a new shelf below the tallest
/// glyph of the current one.
pub struct AtlasPacker {
    width: u32,
    height: u32,
    cur_x: u32,
    cur_y: u32,
    row_h: u32,
    placed: Ghost<Seq<Rect>>,
}

impl AtlasPacker {
    /// The atlas width.
    pub closed spec fn atlas_width(&self) -> int {
        self.width as int
    }

    /// The atlas height.
    pub closed spec fn atlas_height(&self) -> int {
        self.height as int
    }

    /// Where the next glyph goes on the current shelf.
    pub closed spec fn cursor_x(&self) -> int {
        self.cur_x as int
    }

    /// The top of the current shelf.
    pub closed spec fn cursor_y(&self) -> int {
        self.cur_y as int
    }

    /// The height of the tallest glyph on the current shelf.
    pub closed spec fn shelf_height(&self) -> int {
        self.row_h as int
    }

    /// The rectangles of the glyphs placed so far, in order.
    pub closed spec fn placed(&self) -> Seq<Rect> {
        self.placed@
    }

    /// The packer's invariant: every placed glyph lies inside the atlas and
    /// either above the current shelf or on it left of the cursor, and no
    /// two placed glyphs overlap.
    pub closed spec fn wf(&self) -> bool {
        let w = self.width as int;
        let h = self.height as int;
        let pl = self.placed@;
        &&& forall|i: int| 0 <= i < pl.len() ==> #[trigger] inside(pl[i], w, h)
        &&& forall|i: int|
            0 <= i < pl.len() ==> {
                ||| (#[trigger] pl[i]).1 + pl[i].3 <= self.cur_y
                ||| (pl[i].1 == self.cur_y && pl[i].0 + pl[i].2 + GLYPH_PADDING <= self.cur_x
                    && pl[i].3 <= self.row_h)
            }
        &&& forall|i: int, j: int|
            0 <= i < pl.len() && 0 <= j < pl.len() && i != j ==> disjoint(
                #[trigger] pl[i],
                #[trigger] pl[j],
            )
    }

    /// An empty `width` by `height` atlas.
    pub fn new(width: u32, height: u32) -> (p: AtlasPacker)
        ensures
            p.wf(),
            p.atlas_width() == width,
            p.atlas_height() == height,
            p.cursor_x() == 0,
            p.cursor_y() == 0,
            p.shelf_height() == 0,
            p.placed() == Seq::<Rect>::empty(),
    {
        AtlasPacker { width, height, cur_x: 0, cur_y: 0, row_h: 0, placed: Ghost(Seq::empty()) }
    }

    /// The cursor: where the next glyph goes on the current shelf, the top
    /// of the shelf, and the height of its tallest glyph.
    pub fn cursor(&self) -> (r: (u32, u32, u32))
        ensures
            r.0 == self.cursor_x(),
            r.1 == self.cursor_y(),
            r.2 == self.shelf_height(),
    {
        (self.cur_x, self.cur_y, self.row_h)
    }

    /// Places a `gw` by `gh` glyph, at most as wide as the atlas. An empty
    /// glyph takes no room. A glyph that does not fit after the cursor (with
    /// its padding) starts a new shelf at the left edge, one padding below
    /// the current shelf; a glyph that then does not fit above the bottom
    /// edge is skipped. The cursor sums must fit in a `u32`.
    pub fn place(&mut self, gw: u32, gh: u32) -> (r: Placement)
        requires
            old(self).wf(),
            gw <= old(self).atlas_width(),
            gw > 0 && gh > 0 ==> gw + GLYPH_PADDING <= u32::MAX,
            gw > 0 && gh > 0 && old(self).cursor_x() + gw + GLYPH_PADDING > old(self).atlas_width()
                ==> old(self).cursor_y() + old(self).shelf_height() + GLYPH_PADDING <= u32::MAX,
        ensures
            final(self).wf(),
            final(self).atlas_width() == old(self).atlas_width(),
            final(self).atlas_height() == old(self).atlas_height(),
            place_step(
                old(self).atlas_width(),
                old(self).atlas_height(),
                (old(self).cursor_x(), old(self).cursor_y(), old(self).shelf_height()),
                gw as int,
                gh as int,
            ) == ((final(self).cursor_x(), final(self).cursor_y(), final(self).shelf_height()), r),
            ({
                let (x0, y0, h0) = if old(self).cursor_x() + gw + GLYPH_PADDING
                    > old(self).atlas_width() {
                    (0, old(self).cursor_y() + old(self).shelf_height() + GLYPH_PADDING, 0)
                } else {
                    (old(self).cursor_x(), old(self).cursor_y(), old(self).shelf_height())
                };
                if gw == 0 || gh == 0 {
                    &&& r == Placement::Invisible
                    &&& final(self).cursor_x() == old(self).cursor_x()
                    &&& final(self).cursor_y() == old(self).cursor_y()
                    &&& final(self).shelf_height() == old(self).shelf_height()
                    &&& final(self).placed() == old(self).placed()
                } else if y0 + gh > old(self).atlas_height() {
                    &&& r == Placement::Skipped
                    &&& final(self).cursor_x() == x0
                    &&& final(self).cursor_y() == y0
                    &&& final(self).shelf_height() == h0
                    &&& final(self).placed() == old(self).placed()
                } else {
                    &&& r == (Placement::At { x: x0 as u32, y: y0 as u32 })
                    &&& final(self).cursor_x() == x0 + gw + GLYPH_PADDING
                    &&& final(self).cursor_y() == y0
                    &&& final(self).shelf_height() == (if h0 > gh { h0 } else { gh as int })
                    &&& final(self).placed() == old(self).placed().push((x0, y0, gw as int, gh as int))
                }
            }),
    {
        if gw == 0 || gh == 0 {
            return Placement::Invisible;
        }
        let w: u32 = self.width;
        let h: u32 = self.height;
        let ghost pl = self.placed@;
        let wraps: bool = (self.cur_x as u64) + (gw as u64) + (GLYPH_PADDING as u64) > (w as u64);
        let (x0, y0, h0): (u32, u32, u32) = if wraps {
            (0u32, self.cur_y + self.row_h + GLYPH_PADDING, 0u32)
        } else {
            (self.cur_x, self.cur_y, self.row_h)
        };
        proof {
            assert forall|i: int| 0 <= i < pl.len() implies ({
                ||| (#[trigger] pl[i]).1 + pl[i].3 <= y0
                ||| (pl[i].1 == y0 && pl[i].0 + pl[i].2 + GLYPH_PADDING <= x0 && pl[i].3 <= h0)
            }) by {
                assert(inside(pl[i], w as int, h as int));
            }
        }
        if (y0 as u64) + (gh as u64) > (h as u64) {
            *self = AtlasPacker { width: w, height: h, cur_x: x0, cur_y: y0, row_h: h0, placed: Ghost(pl) };
            return Placement::Skipped;
        }
        let nh: u32 = if h0 > gh {
            h0
        } else {
            gh
        };
        let ghost rect: Rect = (x0 as int, y0 as int, gw as int, gh as int);
        let ghost npl = pl.push(rect);
        proof {
            assert forall|i: int| 0 <= i < pl.len() implies disjoint(pl[i], rect) && disjoint(rect, pl[i]) by {
                assert(inside(pl[i], w as int, h as int));
            }
            assert forall|i: int, j: int|
                0 <= i < npl.len() && 0 <= j < npl.len() && i != j implies disjoint(
                    #[trigger] npl[i],
                    #[trigger] npl[j],
                ) by {
                if i < pl.len() && j < pl.len() {
                    assert(npl[i] == pl[i] && npl[j] == pl[j]);
                } else if i < pl.len() {
                    assert(npl[i] == pl[i] && npl[j] == rect);
                } else {
                    assert(npl[i] == rect && npl[j] == pl[j]);
                }
            }
            assert forall|i: int| 0 <= i < npl.len() implies #[trigger] inside(npl[i], w as int, h as int) by {
                if i < pl.len() {
                    assert(npl[i] == pl[i]);
                }
            }
            assert forall|i: int| 0 <= i < npl.len() implies ({
                ||| (#[trigger] npl[i]).1 + npl[i].3 <= y0
                ||| (npl[i].1 == y0 && npl[i].0 + npl[i].2 + GLYPH_PADDING <= x0 + gw + GLYPH_PADDING
                    && npl[i].3 <= nh)
            }) by {
                if i < pl.len() {
                    assert(npl[i] == pl[i]);
                    assert(inside(pl[i], w as int, h as int));
                }
            }
        }
        *self = AtlasPacker {
            width: w,
            height: h,
            cur_x: x0 + gw + GLYPH_PADDING,
            cur_y: y0,
            row_h: nh,
            placed: Ghost(npl),
        };
        Placement::At { x: x0, y: y0 }
    }
}

/// No two glyphs of a packed atlas overlap, and all lie inside it.
pub proof fn lemma_placements_disjoint(p: AtlasPacker)
    requires
        p.wf(),
    ensures
        forall|i: int|
            0 <= i < p.placed().len() ==> inside(
                #[trigger] p.placed()[i],
                p.atlas_width(),
                p.atlas_height(),
            ),
        forall|i: int, j: int|
            0 <= i < p.placed().len() && 0 <= j < p.placed().len() && i != j ==> disjoint(
                #[trigger] p.placed()[i],
                #[trigger] p.placed()[j],
            ),
{
}

/// The position of pixel `(px, py)` of a glyph placed at `(x, y)` in a
/// row-major image `w` pixels wide.
pub open spec fn atlas_index(w: int, x: int, y: int, px: int, py: int) -> int {
    (y + py) * w + x + px
}

/// The position of pixel `(px, py)` in a glyph bitmap `gw` pixels wide.
pub open spec fn bitmap_index(gw: int, px: int, py: int) -> int {
    py * gw + px
}

/// Whether pixel `k` of a row-major image `w` pixels wide lies in the
/// `gw` by `gh` rectangle whose top-left corner is `(x, y)`.
pub open spec fn covers(w: int, x: int, y: int, gw: int, gh: int, k: int) -> bool {
    &&& y <= k / w < y + gh
    &&& x <= k % w < x + gw
}

proof fn lemma_pixel_position(w: int, row: int, col: int)
    requires
        0 <= col < w,
        0 <= row,
    ensures
        (row * w + col) / w == row,
        (row * w + col) % w == col,
{
    lemma_fundamental_div_mod_converse(row * w + col, w, row, col);
}

proof fn lemma_same_position(w: int, k: int, row: int, col: int)
    requires
        0 <= col < w,
        0 <= row,
        0 <= k,
        k / w == row,
        k % w == col,
    ensures
        k == row * w + col,
{
    vstd::arithmetic::div_mod::lemma_fundamental_div_mod(k, w);
    assert(w * (k / w) == row * w) by (nonlinear_arith)
        requires
            k / w == row,
    ;
}

/// Copies a `gw` by `gh` glyph bitmap (row-major, `gw` bytes a row) into
/// an atlas `w` pixels wide with its top-left corner at `(x, y)`. Pixels
/// outside that rectangle keep their values.
pub fn blit_glyph(pixels: &mut Vec<u8>, w: u32, x: u32, y: u32, gw: u32, gh: u32, bitmap: &[u8])
    requires
        x + gw <= w,
        (y + gh) * w <= old(pixels)@.len(),
        gw * gh <= bitmap@.len(),
    ensures
        final(pixels)@.len() == old(pixels)@.len(),
        forall|py: int, px: int|
            0 <= py < gh && 0 <= px < gw ==> final(pixels)@[atlas_index(
                w as int,
                x as int,
                y as int,
                px,
                py,
            )] == bitmap@[bitmap_index(gw as int, px, py)],
        forall|k: int|
            0 <= k < old(pixels)@.len() && !covers(w as int, x as int, y as int, gw as int, gh as int, k)
                ==> final(pixels)@[k] == old(pixels)@[k],
{
    let ghost orig = pixels@;
    let ghost wi = w as int;
    let ghost xi = x as int;
    let ghost yi = y as int;
    let ghost gwi = gw as int;
    let mut row: u32 = 0;
    while row < gh
        invariant
            row <= gh,
            x + gw <= w,
            (y + gh) * w <= orig.len(),
            gw * gh <= bitmap@.len(),
            pixels@.len() == orig.len(),
            wi == w,
            xi == x,
            yi == y,
            gwi == gw,
            forall|py: int, px: int|
                0 <= py < row && 0 <= px < gw ==> pixels@[atlas_index(wi, xi, yi, px, py)]
                    == bitmap@[bitmap_index(gwi, px, py)],
            forall|k: int|
                0 <= k < orig.len() && !covers(wi, xi, yi, gwi, row as int, k) ==> pixels@[k]
                    == orig[k],
        decreases gh - row,
    {
        let mut col: u32 = 0;
        while col < gw
            invariant
                row < gh,
                col <= gw,
                x + gw <= w,
                (y + gh) * w <= orig.len(),
                gw * gh <= bitmap@.len(),
                pixels@.len() == orig.len(),
                wi == w,
                xi == x,
                yi == y,
                gwi == gw,
                forall|py: int, px: int|
                    0 <= py < row && 0 <= px < gw ==> pixels@[atlas_index(wi, xi, yi, px, py)]
                        == bitmap@[bitmap_index(gwi, px, py)],
                forall|px: int|
                    0 <= px < col ==> pixels@[atlas_index(wi, xi, yi, px, row as int)]
                        == bitmap@[bitmap_index(gwi, px, row as int)],
                forall|k: int|
                    0 <= k < orig.len() && !covers(wi, xi, yi, gwi, row as int, k) && !(k / wi
                        == yi + row && xi <= k % wi < xi + col) ==> pixels@[k] == orig[k],
            decreases gw - col,
        {
            let ghost before = pixels@;
            let ghost p = (yi + row) * wi + xi + col;
            let plen: usize = pixels.len();
            let blen: usize = bitmap.len();
            proof {
                assert((yi + row + 1) * wi <= (yi + gh) * wi) by (nonlinear_arith)
                    requires
                        row + 1 <= gh,
                        0 <= wi,
                ;
                assert((yi + row + 1) * wi == (yi + row) * wi + wi) by (nonlinear_arith);
                assert((yi + row) * wi + xi + col < (yi + gh) * wi);
                assert(yi + row <= (yi + row) * wi) by (nonlinear_arith)
                    requires
                        1 <= wi,
                        0 <= yi + row,
                ;
                assert(row * gwi + col < gwi * gh) by (nonlinear_arith)
                    requires
                        row < gh,
                        col < gwi,
                ;
                assert(0 <= (yi + row) * wi) by (nonlinear_arith)
                    requires
                        0 <= yi,
                        0 <= row,
                        0 <= wi,
                ;
                lemma_pixel_position(wi, yi + row, xi + col);
            }
            let dst: usize = (y as usize + row as usize) * (w as usize) + x as usize + col as usize;
            let src: usize = (row as usize) * (gw as usize) + col as usize;
            pixels.set(dst, bitmap[src]);
            proof {
                assert forall|py: int, px: int|
                    0 <= py < row && 0 <= px < gw implies pixels@[atlas_index(wi, xi, yi, px, py)]
                        == bitmap@[bitmap_index(gwi, px, py)] by {
                    lemma_pixel_position(wi, yi + py, xi + px);
                    let q = atlas_index(wi, xi, yi, px, py);
                    assert(q == (yi + py) * wi + (xi + px));
                    assert(p == (yi + row) * wi + (xi + col));
                    assert(q / wi == yi + py);
                    assert(p / wi == yi + row);
                    assert(q != p);
                    assert(before[q] == bitmap@[bitmap_index(gwi, px, py)]);
                    assert((yi + py + 1) * wi <= (yi + gh) * wi) by (nonlinear_arith)
                        requires
                            py + 1 <= gh,
                            0 <= wi,
                    ;
                    assert((yi + py + 1) * wi == (yi + py) * wi + wi) by (nonlinear_arith);
                    assert(0 <= (yi + py) * wi) by (nonlinear_arith)
                        requires
                            0 <= yi + py,
                            0 <= wi,
                    ;
                    assert(0 <= q < orig.len());
                }
                assert forall|px: int|
                    0 <= px < col + 1 implies pixels@[atlas_index(wi, xi, yi, px, row as int)]
                        == bitmap@[bitmap_index(gwi, px, row as int)] by {
                    if px < col {
                        lemma_pixel_position(wi, yi + row, xi + px);
                        assert(0 <= (yi + row) * wi + xi + px) by (nonlinear_arith)
                            requires
                                0 <= yi + row,
                                0 <= wi,
                                0 <= xi + px,
                        ;
                        assert((yi + row) * wi + xi + px != p);
                    }
                }
                assert forall|k: int|
                    0 <= k < orig.len() && !covers(wi, xi, yi, gwi, row as int, k) && !(k / wi
                        == yi + row && xi <= k % wi < xi + col + 1) implies pixels@[k]
                        == orig[k] by {
                    if k == p {
                        assert(k / wi == yi + row && k % wi == xi + col);
                    }
                }
            }
            col += 1;
        }
        proof {
            assert forall|k: int|
                0 <= k < orig.len() && !covers(wi, xi, yi, gwi, row + 1, k) implies pixels@[k]
                    == orig[k] by {
                if k / wi == yi + row && xi <= k % wi < xi + gw {
                    assert(covers(wi, xi, yi, gwi, row + 1, k));
                }
            }
        }
        row += 1;
    }
}

/// Copying a glyph leaves every other placed glyph intact: a pixel of one
/// glyph is never covered by a glyph whose rectangle is disjoint from it.
pub proof fn lemma_blit_keeps_other_glyph(w: int, h: int, a: Rect, b: Rect, px: int, py: int)
    requires
        inside(a, w, h),
        inside(b, w, h),
        disjoint(a, b),
        0 <= px < a.2,
        0 <= py < a.3,
    ensures
        !covers(w, b.0, b.1, b.2, b.3, atlas_index(w, a.0, a.1, px, py)),
{
    lemma_pixel_position(w, a.1 + py, a.0 + px);
    assert(atlas_index(w, a.0, a.1, px, py) == (a.1 + py) * w + (a.0 + px));
}

proof fn lemma_index_in_atlas(w: int, h: int, r: Rect, px: int, py: int)
    requires
        inside(r, w, h),
        0 <= px < r.2,
        0 <= py < r.3,
    ensures
        0 <= atlas_index(w, r.0, r.1, px, py) < w * h,
{
    assert((r.1 + py + 1) * w <= h * w) by (nonlinear_arith)
        requires
            r.1 + py + 1 <= h,
            0 <= w,
    ;
    assert((r.1 + py + 1) * w == (r.1 + py) * w + w) by (nonlinear_arith);
    assert(h * w == w * h) by (nonlinear_arith);
    assert(0 <= (r.1 + py) * w) by (nonlinear_arith)
        requires
            0 <= r.1 + py,
            0 <= w,
    ;
}

/// A glyph bitmap: `width` by `height` coverage bytes, row by row.
pub struct GlyphBitmap {
    pub width: u32,
    pub height: u32,
    pub pixels: Vec<u8>,
}

/// The sizes of a list of glyph bitmaps.
pub open spec fn glyph_sizes(g: Seq<GlyphBitmap>) -> Seq<(int, int)> {
    g.map_values(|b: GlyphBitmap| (b.width as int, b.height as int))
}

/// The cursor and placements after packing glyphs of the given sizes, in
/// order, into an empty `w` by `h` atlas.
pub open spec fn pack_run(w: int, h: int, sizes: Seq<(int, int)>) -> ((int, int, int), Seq<Placement>)
    decreases sizes.len(),
{
    if sizes.len() == 0 {
        ((0, 0, 0), seq![])
    } else {
        let r = pack_run(w, h, sizes.drop_last());
        let st = place_step(w, h, r.0, sizes.last().0, sizes.last().1);
        (st.0, r.1.push(st.1))
    }
}

proof fn lemma_pack_run_len(w: int, h: int, sizes: Seq<(int, int)>)
    ensures
        pack_run(w, h, sizes).1.len() == sizes.len(),
    decreases sizes.len(),
{
    if sizes.len() > 0 {
        lemma_pack_run_len(w, h, sizes.drop_last());
    }
}

/// Whether the cursor sums stay within `u32` for every glyph of the run.
pub open spec fn pack_fits(w: int, h: int, sizes: Seq<(int, int)>) -> bool {
    forall|i: int|
        0 <= i < sizes.len() ==> step_fits(
            w,
            (#[trigger] pack_run(w, h, sizes.take(i))).0,
            sizes[i].0,
            sizes[i].1,
        )
}

/// The rectangle of a placed glyph of the given size.
pub open spec fn glyph_rect(p: Placement, size: (int, int)) -> Rect {
    match p {
        Placement::At { x, y } => (x as int, y as int, size.0, size.1),
        _ => (0, 0, 0, 0),
    }
}

/// Where pixel `(px, py)` of a placed glyph lies in the atlas.
pub open spec fn glyph_pixel(w: int, p: Placement, size: (int, int), px: int, py: int) -> int {
    atlas_index(w, glyph_rect(p, size).0, glyph_rect(p, size).1, px, py)
}

/// Whether atlas pixel `k` lies in some placed glyph.
pub open spec fn covered_by_glyphs(w: int, placements: Seq<Placement>, sizes: Seq<(int, int)>, k: int) -> bool {
    exists|j: int|
        0 <= j < placements.len() && placements[j] is At && {
            let r = #[trigger] glyph_rect(placements[j], sizes[j]);
            covers(w, r.0, r.1, r.2, r.3, k)
        }
}

/// A packed atlas: its pixels and where each glyph went.
pub struct PackedAtlas {
    pub pixels: Vec<u8>,
    pub placements: Vec<Placement>,
}

/// Packs glyph bitmaps, in order, into a blank `w` by `h` atlas and copies
/// each placed glyph's pixels into its place. `None` exactly when a cursor
/// sum would leave `u32` (see `pack_fits`).
pub fn pack_atlas(w: u32, h: u32, glyphs: &[GlyphBitmap]) -> (r: Option<PackedAtlas>)
    requires
        w * h <= u32::MAX,
        forall|i: int| 0 <= i < glyphs@.len() ==> (#[trigger] glyphs@[i]).width <= w,
        forall|i: int|
            0 <= i < glyphs@.len() ==> (#[trigger] glyphs@[i]).width * glyphs@[i].height
                <= glyphs@[i].pixels@.len(),
    ensures
        r is None <==> !pack_fits(w as int, h as int, glyph_sizes(glyphs@)),
        r matches Some(a) ==> {
            let sizes = glyph_sizes(glyphs@);
            let pl = a.placements@;
            &&& a.pixels@.len() == w * h
            &&& pl == pack_run(w as int, h as int, sizes).1
            &&& forall|j: int|
                0 <= j < pl.len() && pl[j] is At ==> inside(
                    #[trigger] glyph_rect(pl[j], sizes[j]),
                    w as int,
                    h as int,
                )
            &&& forall|i: int, j: int|
                0 <= i < pl.len() && 0 <= j < pl.len() && i != j && pl[i] is At && pl[j] is At
                    ==> disjoint(
                    #[trigger] glyph_rect(pl[i], sizes[i]),
                    #[trigger] glyph_rect(pl[j], sizes[j]),
                )
            &&& forall|j: int, px: int, py: int|
                0 <= j < pl.len() && pl[j] is At && 0 <= px < sizes[j].0 && 0 <= py < sizes[j].1
                    ==> a.pixels@[#[trigger] glyph_pixel(w as int, pl[j], sizes[j], px, py)]
                    == glyphs@[j].pixels@[bitmap_index(sizes[j].0, px, py)]
            &&& forall|k: int|
                0 <= k < a.pixels@.len() && !covered_by_glyphs(w as int, pl, sizes, k)
                    ==> a.pixels@[k] == 0
        },
{
    let ghost wi = w as int;
    let ghost hi = h as int;
    let ghost sizes = glyph_sizes(glyphs@);
    let n: usize = (w as usize) * (h as usize);
    let mut pixels: Vec<u8> = Vec::new();
    let mut k: usize = 0;
    while k < n
        invariant
            k <= n,
            pixels@.len() == k,
            forall|m: int| 0 <= m < k ==> pixels@[m] == 0,
        decreases n - k,
    {
        pixels.push(0);
        k += 1;
    }
    let mut packer = AtlasPacker::new(w, h);
    let mut placements: Vec<Placement> = Vec::new();
    let count: usize = glyphs.len();
    let mut i: usize = 0;
    assert(sizes.take(0) =~= Seq::<(int, int)>::empty());
    while i < count
        invariant
            i <= count,
            count == glyphs@.len(),
            sizes == glyph_sizes(glyphs@),
            wi == w,
            hi == h,
            n == w * h,
            w * h <= u32::MAX,
            forall|m: int| 0 <= m < glyphs@.len() ==> (#[trigger] glyphs@[m]).width <= w,
            forall|m: int|
                0 <= m < glyphs@.len() ==> (#[trigger] glyphs@[m]).width * glyphs@[m].height
                    <= glyphs@[m].pixels@.len(),
            packer.wf(),
            packer.atlas_width() == w,
            packer.atlas_height() == h,
            (packer.cursor_x(), packer.cursor_y(), packer.shelf_height()) == pack_run(
                wi,
                hi,
                sizes.take(i as int),
            ).0,
            placements@ == pack_run(wi, hi, sizes.take(i as int)).1,
            forall|j: int|
                0 <= j < i ==> step_fits(
                    wi,
                    (#[trigger] pack_run(wi, hi, sizes.take(j))).0,
                    sizes[j].0,
                    sizes[j].1,
                ),
            pixels@.len() == n,
            forall|j: int|
                0 <= j < i && placements@[j] is At ==> packer.placed().contains(
                    #[trigger] glyph_rect(placements@[j], sizes[j]),
                ),
            forall|j1: int, j2: int|
                0 <= j1 < i && 0 <= j2 < i && j1 != j2 && placements@[j1] is At
                    && placements@[j2] is At ==> disjoint(
                    #[trigger] glyph_rect(placements@[j1], sizes[j1]),
                    #[trigger] glyph_rect(placements@[j2], sizes[j2]),
                ),
            forall|j: int, px: int, py: int|
                0 <= j < i && placements@[j] is At && 0 <= px < sizes[j].0 && 0 <= py
                    < sizes[j].1 ==> pixels@[#[trigger] glyph_pixel(
                    wi,
                    placements@[j],
                    sizes[j],
                    px,
                    py,
                )] == glyphs@[j].pixels@[bitmap_index(sizes[j].0, px, py)],
            forall|m: int|
                0 <= m < pixels@.len() && !covered_by_glyphs(wi, placements@, sizes, m)
                    ==> pixels@[m] == 0,
        decreases count - i,
    {
        let gw: u32 = glyphs[i].width;
        let gh: u32 = glyphs[i].height;
        assert(sizes[i as int] == (gw as int, gh as int));
        let (cx, cy, ch) = packer.cursor();
        if gw > 0 && gh > 0 {
            if gw == u32::MAX || ((cx as u64) + (gw as u64) + (GLYPH_PADDING as u64) > (w as u64)
                && (cy as u64) + (ch as u64) + (GLYPH_PADDING as u64) > (u32::MAX as u64)) {
                assert(!step_fits(wi, pack_run(wi, hi, sizes.take(i as int)).0, sizes[i as int].0, sizes[i as int].1));
                return None;
            }
        }
        proof {
            lemma_pack_run_len(wi, hi, sizes.take(i as int));
        }
        let ghost old_placed = packer.placed();
        let ghost old_pixels = pixels@;
        let ghost old_placements = placements@;
        let p = packer.place(gw, gh);
        proof {
            lemma_placements_disjoint(packer);
            assert forall|r: Rect| old_placed.contains(r) implies packer.placed().contains(r) by {
                let k = choose|k: int| 0 <= k < old_placed.len() && old_placed[k] == r;
                assert(packer.placed()[k] == r);
            }
        }
        match p {
            Placement::At { x, y } => {
                let ghost newr: Rect = (x as int, y as int, gw as int, gh as int);
                let ghost last = old_placed.len() as int;
                assert(packer.placed() == old_placed.push(newr));
                assert(packer.placed()[last] == newr);
                assert(inside(newr, wi, hi));
                assert((y + gh) * w <= h * w) by (nonlinear_arith)
                    requires
                        y + gh <= h,
                ;
                assert(h * w == w * h) by (nonlinear_arith);
                assert(gw * gh <= glyphs@[i as int].pixels@.len());
                blit_glyph(&mut pixels, w, x, y, gw, gh, &glyphs[i].pixels);
                proof {
                    assert forall|j: int|
                        0 <= j < i && old_placements[j] is At implies inside(
                            #[trigger] glyph_rect(old_placements[j], sizes[j]),
                            wi,
                            hi,
                        ) && disjoint(glyph_rect(old_placements[j], sizes[j]), newr) && disjoint(
                            newr,
                            glyph_rect(old_placements[j], sizes[j]),
                        ) by {
                        let r = glyph_rect(old_placements[j], sizes[j]);
                        let k = choose|k: int| 0 <= k < old_placed.len() && old_placed[k] == r;
                        assert(packer.placed()[k] == r);
                    }
                    assert forall|j: int, px: int, py: int|
                        0 <= j < i && old_placements[j] is At && 0 <= px < sizes[j].0 && 0 <= py
                            < sizes[j].1 implies pixels@[#[trigger] glyph_pixel(
                            wi,
                            old_placements[j],
                            sizes[j],
                            px,
                            py,
                        )] == old_pixels[glyph_pixel(wi, old_placements[j], sizes[j], px, py)] by {
                        let r = glyph_rect(old_placements[j], sizes[j]);
                        assert(inside(r, wi, hi) && disjoint(r, newr));
                        lemma_blit_keeps_other_glyph(wi, hi, r, newr, px, py);
                        lemma_index_in_atlas(wi, hi, r, px, py);
                    }
                    assert forall|px: int, py: int|
                        0 <= px < gw && 0 <= py < gh implies pixels@[glyph_pixel(
                            wi,
                            p,
                            sizes[i as int],
                            px,
                            py,
                        )] == glyphs@[i as int].pixels@[bitmap_index(gw as int, px, py)] by {
                        assert(glyph_pixel(wi, p, sizes[i as int], px, py) == atlas_index(
                            wi,
                            x as int,
                            y as int,
                            px,
                            py,
                        ));
                    }
                    assert forall|m: int|
                        0 <= m < pixels@.len() && !covered_by_glyphs(
                            wi,
                            old_placements.push(p),
                            sizes,
                            m,
                        ) implies pixels@[m] == 0 by {
                        if covered_by_glyphs(wi, old_placements, sizes, m) {
                            let j = choose|j: int|
                                0 <= j < old_placements.len() && old_placements[j] is At && {
                                    let r = #[trigger] glyph_rect(old_placements[j], sizes[j]);
                                    covers(wi, r.0, r.1, r.2, r.3, m)
                                };
                            assert(old_placements.push(p)[j] == old_placements[j]);
                            assert(glyph_rect(old_placements.push(p)[j], sizes[j]) == glyph_rect(
                                old_placements[j],
                                sizes[j],
                            ));
                        }
                        assert(old_placements.push(p)[i as int] == p);
                        assert(glyph_rect(old_placements.push(p)[i as int], sizes[i as int])
                            == newr);
                    }
                }
            },
            _ => {
                proof {
                    assert forall|m: int|
                        0 <= m < pixels@.len() && !covered_by_glyphs(
                            wi,
                            old_placements.push(p),
                            sizes,
                            m,
                        ) implies pixels@[m] == 0 by {
                        if covered_by_glyphs(wi, old_placements, sizes, m) {
                            let j = choose|j: int|
                                0 <= j < old_placements.len() && old_placements[j] is At && {
                                    let r = #[trigger] glyph_rect(old_placements[j], sizes[j]);
                                    covers(wi, r.0, r.1, r.2, r.3, m)
                                };
                            assert(old_placements.push(p)[j] == old_placements[j]);
                            assert(glyph_rect(old_placements.push(p)[j], sizes[j]) == glyph_rect(
                                old_placements[j],
                                sizes[j],
                            ));
                        }
                    }
                }
            },
        }
        placements.push(p);
        proof {
            let ni = i + 1;
            assert(sizes.take(ni as int).drop_last() =~= sizes.take(i as int));
            assert(sizes.take(ni as int).last() == sizes[i as int]);
            assert(placements@ == old_placements.push(p));
            assert forall|j: int| 0 <= j < i implies placements@[j] == old_placements[j] by {}
        }
        i += 1;
    }
    proof {
        lemma_placements_disjoint(packer);
        lemma_pack_run_len(wi, hi, sizes.take(count as int));
        assert forall|j: int|
            0 <= j < placements@.len() && placements@[j] is At implies inside(
                #[trigger] glyph_rect(placements@[j], sizes[j]),
                wi,
                hi,
            ) by {
            let r = glyph_rect(placements@[j], sizes[j]);
            let k = choose|k: int| 0 <= k < packer.placed().len() && packer.placed()[k] == r;
        }
    }
    assert(sizes.take(count as int) =~= sizes);
    Some(PackedAtlas { pixels, placements })
}

} // verus!
