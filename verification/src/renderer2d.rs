//! The 2D renderer: a boolean pixel grid the size of the terminal's
//! dot matrix, drawn into with the integer primitives and packed into
//! a Braille glyph stream for an output sink to print.

use crate::braille::block_dots_up;
use crate::braille::glyph_code;
use crate::braille::grid_wf;
use crate::primitives::circle_pts;
use crate::primitives::circle_points;
use crate::primitives::filled_circle_pts;
use crate::primitives::filled_circle_pts_rec;
use crate::primitives::line_pts;
use crate::primitives::line_points_wide;
use crate::primitives::pts_view;
use crate::primitives::spoke_pts;
use crate::screen::encode_rows_upward;
use vstd::prelude::*;
use vstd::seq_lib::lemma_seq_concat_contains_all_elements;
use vstd::seq_lib::lemma_seq_contains_after_push;
use vstd::seq_lib::lemma_seq_empty_contains_nothing;

verus! {

broadcast use lemma_seq_concat_contains_all_elements, lemma_seq_contains_after_push, lemma_seq_empty_contains_nothing;

/// A piece of text pinned to a terminal cell position, drawn by the
/// output sink after the glyphs.
pub struct TextLabel {
    pub message: String,
    pub position: (u16, u16),
}

/// Builds an all-unlit pixel grid of `w` columns by `h` rows.
pub fn make_grid(w: usize, h: usize) -> (g: Vec<Vec<bool>>)
    ensures
        grid_wf(g@, w as int, h as int),
        forall|a: int, b: int| 0 <= a < w && 0 <= b < h ==> !(#[trigger] g@[a]@[b]),
{
    let mut g: Vec<Vec<bool>> = Vec::new();
    let mut a: usize = 0;
    while a < w
        invariant
            0 <= a <= w,
            g@.len() == a,
            forall|i: int| 0 <= i < a ==> (#[trigger] g@[i])@.len() == h,
            forall|i: int, b: int| 0 <= i < a && 0 <= b < h ==> !(#[trigger] g@[i]@[b]),
        decreases w - a,
    {
        let mut col: Vec<bool> = Vec::new();
        let mut b: usize = 0;
        while b < h
            invariant
                0 <= b <= h,
                col@.len() == b,
                forall|j: int| 0 <= j < b ==> !(#[trigger] col@[j]),
            decreases h - b,
        {
            col.push(false);
            b = b + 1;
        }
        g.push(col);
        a = a + 1;
    }
    g
}

/// Sets every in-range point of `pts` in the grid; points outside the
/// grid are silently dropped.
fn write_points(grid: &mut Vec<Vec<bool>>, pts: &Vec<(i64, i64)>)
    requires
        grid_wf(old(grid)@, old(grid)@.len() as int, grid_height(old(grid)@)),
        old(grid)@.len() <= 0xFFFF,
        grid_height(old(grid)@) <= 0xFFFF,
    ensures
        final(grid)@.len() == old(grid)@.len(),
        grid_height(final(grid)@) == grid_height(old(grid)@),
        grid_wf(final(grid)@, old(grid)@.len() as int, grid_height(old(grid)@)),
        forall|a: int, b: int|
            0 <= a < old(grid)@.len() && 0 <= b < grid_height(old(grid)@) ==> (
            #[trigger] final(grid)@[a]@[b]) == (old(grid)@[a]@[b] || pts_view(pts@).contains(
                (a, b),
            )),
{
    let w: usize = grid.len();
    let h: usize = if w == 0 {
        0
    } else {
        grid[0].len()
    };
    let ghost vp = pts_view(pts@);
    let mut i: usize = 0;
    while i < pts.len()
        invariant
            w == grid@.len(),
            h as int == grid_height(grid@),
            w <= 0xFFFF,
            h <= 0xFFFF,
            grid_wf(grid@, w as int, h as int),
            vp == pts_view(pts@),
            0 <= i <= pts@.len(),
            forall|a: int, b: int|
                0 <= a < w && 0 <= b < h ==> (#[trigger] grid@[a]@[b]) == (old(grid)@[a]@[b]
                    || vp.take(i as int).contains((a, b))),
        decreases pts@.len() - i,
    {
        let p = pts[i];
        let ghost pre = grid@;
        assert(vp[i as int] == (p.0 as int, p.1 as int));
        assert(vp.take(i as int + 1) =~= vp.take(i as int).push(vp[i as int]));
        if p.0 >= 0 && p.0 < w as i64 && p.1 >= 0 && p.1 < h as i64 {
            let a = p.0 as usize;
            let b = p.1 as usize;
            grid[a][b] = true;
            assert(grid@[a as int]@ =~= pre[a as int]@.update(b as int, true));
            assert forall|aa: int, bb: int| 0 <= aa < w && 0 <= bb < h implies (
            #[trigger] grid@[aa]@[bb]) == (old(grid)@[aa]@[bb] || vp.take(
                i as int + 1,
            ).contains((aa, bb))) by {
                if aa == a as int && bb == b as int {
                    assert(vp.take(i as int + 1).contains(vp[i as int]));
                } else {
                    assert(grid@[aa]@[bb] == pre[aa]@[bb]);
                    assert((aa, bb) != vp[i as int]);
                }
            }
        } else {
            assert forall|aa: int, bb: int| 0 <= aa < w && 0 <= bb < h implies (
            #[trigger] grid@[aa]@[bb]) == (old(grid)@[aa]@[bb] || vp.take(
                i as int + 1,
            ).contains((aa, bb))) by {
                assert((aa, bb) != vp[i as int]);
            }
        }
        i = i + 1;
    }
    assert(vp.take(pts@.len() as int) =~= vp);
}

/// The row count of a grid: the height of its first column, or zero
/// for an empty grid.
pub open spec fn grid_height(g: Seq<Vec<bool>>) -> int {
    if g.len() == 0 {
        0
    } else {
        g[0]@.len() as int
    }
}

/// A renderer that rasterizes 2D primitives onto a boolean pixel grid
/// and encodes frames as Braille glyph streams.
pub struct Renderer {
    pixel_grid: Vec<Vec<bool>>,
    text_buffer: Vec<TextLabel>,
    term_size: (u16, u16),
}

impl Renderer {
    /// The pixel dimensions of the drawing area: `(width, height)`.
    pub closed spec fn spec_size(&self) -> (u16, u16) {
        self.term_size
    }

    /// The pixel at `(x, y)`.
    pub closed spec fn pixel(&self, x: int, y: int) -> bool {
        self.pixel_grid@[x]@[y]
    }

    /// The whole pixel grid, for contracts over encoded output.
    pub closed spec fn grid_view(&self) -> Seq<Vec<bool>> {
        self.pixel_grid@
    }

    /// The pinned text labels, in insertion order.
    pub closed spec fn labels_view(&self) -> Seq<TextLabel> {
        self.text_buffer@
    }

    /// The grid matches the stored size, and both pixel dimensions
    /// fit in the signed 16-bit coordinates the primitives use.
    pub closed spec fn wf(&self) -> bool {
        &&& grid_wf(self.pixel_grid@, self.term_size.0 as int, self.term_size.1 as int)
        &&& self.term_size.0 <= 0x7FFE
        &&& self.term_size.1 <= 0x7FFC
    }

    /// Builds a renderer for a terminal of `cols x rows` character
    /// cells, with two pixel columns and four pixel rows per cell.
    /// All pixels start unlit.
    pub fn with_size(cols: u16, rows: u16) -> (r: Renderer)
        requires
            cols <= 0x3FFF,
            rows <= 0x1FFF,
        ensures
            r.wf(),
            r.spec_size().0 == cols * 2,
            r.spec_size().1 == rows * 4,
            forall|a: int, b: int|
                0 <= a < r.spec_size().0 && 0 <= b < r.spec_size().1 ==> !(#[trigger] r.pixel(
                    a,
                    b,
                )),
            r.labels_view() == Seq::<TextLabel>::empty(),
    {
        let width: u16 = cols * 2;
        let height: u16 = rows * 4;
        Renderer {
            pixel_grid: make_grid(width as usize, height as usize),
            text_buffer: Vec::new(),
            term_size: (width, height),
        }
    }

    /// The pixel dimensions of the drawing area.
    pub fn terminal_size(&self) -> (size: (u16, u16))
        ensures
            size == self.spec_size(),
    {
        self.term_size
    }

    /// Lights the pixel at `(x, y)`; coordinates outside the grid are
    /// silently dropped.
    pub fn draw_pixel(&mut self, x: i16, y: i16)
        requires
            old(self).wf(),
        ensures
            final(self).wf(),
            final(self).spec_size() == old(self).spec_size(),
            final(self).labels_view() == old(self).labels_view(),
            forall|a: int, b: int|
                0 <= a < old(self).spec_size().0 && 0 <= b < old(self).spec_size().1 ==> (
                #[trigger] final(self).pixel(a, b)) == (old(self).pixel(a, b) || (a == x as int && b
                    == y as int)),
    {
        let x_size = self.term_size.0 as i16;
        let y_size = self.term_size.1 as i16;
        if x >= 0 && x < x_size && y >= 0 && y < y_size {
            let a = x as usize;
            let b = y as usize;
            let ghost pre = self.pixel_grid@;
            self.pixel_grid[a][b] = true;
            assert(self.pixel_grid@[a as int]@ =~= pre[a as int]@.update(b as int, true));
        }
    }

    /// Draws the Bresenham line from `(x1, y1)` to `(x2, y2)`: exactly
    /// the in-range points of `line_pts` are lit on top of the
    /// existing pixels.
    pub fn draw_line(&mut self, x1: i16, y1: i16, x2: i16, y2: i16)
        requires
            old(self).wf(),
        ensures
            final(self).wf(),
            final(self).spec_size() == old(self).spec_size(),
            final(self).labels_view() == old(self).labels_view(),
            forall|a: int, b: int|
                0 <= a < old(self).spec_size().0 && 0 <= b < old(self).spec_size().1 ==> (
                #[trigger] final(self).pixel(a, b)) == (old(self).pixel(a, b) || line_pts(
                    x1 as int,
                    y1 as int,
                    x2 as int,
                    y2 as int,
                ).contains((a, b))),
    {
        let pts = line_points_wide(x1 as i64, y1 as i64, x2 as i64, y2 as i64);
        write_points(&mut self.pixel_grid, &pts);
    }

    /// Draws the circle outline of radius `r` around `(cx, cy)`:
    /// exactly the in-range points of `circle_pts` are lit on top of
    /// the existing pixels.
    pub fn draw_circle(&mut self, cx: i16, cy: i16, r: i16)
        requires
            old(self).wf(),
        ensures
            final(self).wf(),
            final(self).spec_size() == old(self).spec_size(),
            final(self).labels_view() == old(self).labels_view(),
            forall|a: int, b: int|
                0 <= a < old(self).spec_size().0 && 0 <= b < old(self).spec_size().1 ==> (
                #[trigger] final(self).pixel(a, b)) == (old(self).pixel(a, b) || circle_pts(
                    cx as int,
                    cy as int,
                    r as int,
                ).contains((a, b))),
    {
        let pts = circle_points(cx, cy, r);
        write_points(&mut self.pixel_grid, &pts);
    }

    /// Draws one radial spoke: the Bresenham line from `(x1, y1)`
    /// back to `(x2, y2)`, in wide coordinates so that off-screen
    /// spoke ends are handled like any other dropped pixel.
    fn spoke(&mut self, x1: i64, y1: i64, x2: i64, y2: i64)
        requires
            old(self).wf(),
            -1000000 <= x1 <= 1000000,
            -1000000 <= y1 <= 1000000,
            -1000000 <= x2 <= 1000000,
            -1000000 <= y2 <= 1000000,
        ensures
            final(self).wf(),
            final(self).spec_size() == old(self).spec_size(),
            final(self).labels_view() == old(self).labels_view(),
            forall|a: int, b: int|
                0 <= a < old(self).spec_size().0 && 0 <= b < old(self).spec_size().1 ==> (
                #[trigger] final(self).grid_view()[a]@[b]) == (old(self).grid_view()[a]@[b]
                    || line_pts(x1 as int, y1 as int, x2 as int, y2 as int).contains((a, b))),
    {
        let pts = line_points_wide(x1, y1, x2, y2);
        write_points(&mut self.pixel_grid, &pts);
    }

    /// Fills the circle of radius `r` around `(cx, cy)` with radial
    /// spokes: for each outline point a line is drawn back to the
    /// center. Exactly the in-range points of `filled_circle_pts` are
    /// lit on top of the existing pixels.
    pub fn draw_filled_circle(&mut self, cx: i16, cy: i16, r: i16)
        requires
            old(self).wf(),
        ensures
            final(self).wf(),
            final(self).spec_size() == old(self).spec_size(),
            final(self).labels_view() == old(self).labels_view(),
            forall|a: int, b: int|
                0 <= a < old(self).spec_size().0 && 0 <= b < old(self).spec_size().1 ==> (
                #[trigger] final(self).pixel(a, b)) == (old(self).pixel(a, b)
                    || filled_circle_pts(cx as int, cy as int, r as int).contains((a, b))),
    {
        let cxl: i64 = cx as i64;
        let cyl: i64 = cy as i64;
        let rl: i64 = r as i64;
        let ghost w = self.spec_size().0 as int;
        let ghost h = self.spec_size().1 as int;
        let ghost base = self.pixel_grid@;
        if r < 0 {
            return ;
        }
        let mut x: i64 = rl;
        let mut y: i64 = 0;
        let mut dy: i64 = -2;
        let mut dx: i64 = 4 * rl - 4;
        let mut d: i64 = 2 * rl - 1;
        let ghost total = filled_circle_pts(cx as int, cy as int, r as int);
        let ghost mut consumed = Seq::<(int, int)>::empty();
        proof {
            assert(consumed + filled_circle_pts_rec(
                cx as int,
                cy as int,
                x as int,
                y as int,
                dy as int,
                dx as int,
                d as int,
            ) =~= total);
        }
        while y <= x
            invariant
                self.wf(),
                self.spec_size() == (w as u16, h as u16),
                w == self.spec_size().0 as int,
                h == self.spec_size().1 as int,
                self.labels_view() == old(self).labels_view(),
                cxl == cx as int,
                cyl == cy as int,
                rl == r as int,
                rl >= 0,
                0 <= y <= rl + 1,
                y - 2 <= x <= rl,
                dy == -2 - 4 * y,
                dx == 4 * x - 4,
                y <= x ==> d <= 4 * rl,
                d >= 3 * dy,
                total == consumed + filled_circle_pts_rec(
                    cx as int,
                    cy as int,
                    x as int,
                    y as int,
                    dy as int,
                    dx as int,
                    d as int,
                ),
                forall|a: int, b: int|
                    0 <= a < w && 0 <= b < h ==> (#[trigger] self.grid_view()[a]@[b]) == (
                    base[a]@[b] || consumed.contains((a, b))),
            decreases x + 2 - y,
        {
            let ghost entry = consumed;
            let ghost rest = filled_circle_pts_rec(
                cx as int,
                cy as int,
                x as int,
                y as int,
                dy as int,
                dx as int,
                d as int,
            );
            self.spoke(cxl - x, cyl - y, cxl, cyl);
            proof {
                consumed = consumed + line_pts((cxl - x) as int, (cyl - y) as int, cxl as int, cyl as int);
            }
            self.spoke(cxl + x, cyl - y, cxl, cyl);
            proof {
                consumed = consumed + line_pts((cxl + x) as int, (cyl - y) as int, cxl as int, cyl as int);
            }
            self.spoke(cxl - x, cyl + y, cxl, cyl);
            proof {
                consumed = consumed + line_pts((cxl - x) as int, (cyl + y) as int, cxl as int, cyl as int);
            }
            self.spoke(cxl + x, cyl + y, cxl, cyl);
            proof {
                consumed = consumed + line_pts((cxl + x) as int, (cyl + y) as int, cxl as int, cyl as int);
            }
            self.spoke(cxl - y, cyl - x, cxl, cyl);
            proof {
                consumed = consumed + line_pts((cxl - y) as int, (cyl - x) as int, cxl as int, cyl as int);
            }
            self.spoke(cxl + y, cyl - x, cxl, cyl);
            proof {
                consumed = consumed + line_pts((cxl + y) as int, (cyl - x) as int, cxl as int, cyl as int);
            }
            self.spoke(cxl - y, cyl + x, cxl, cyl);
            proof {
                consumed = consumed + line_pts((cxl - y) as int, (cyl + x) as int, cxl as int, cyl as int);
            }
            self.spoke(cxl + y, cyl + x, cxl, cyl);
            proof {
                consumed = consumed + line_pts((cxl + y) as int, (cyl + x) as int, cxl as int, cyl as int);
            }
            proof {
                assert(consumed =~= entry + spoke_pts(cx as int, cy as int, x as int, y as int));
            }

            d = d + dy;
            dy = dy - 4;
            y = y + 1;
            if d < 0 {
                d = d + dx;
                dx = dx - 4;
                x = x - 1;
            }
            proof {
                assert(consumed + filled_circle_pts_rec(
                    cx as int,
                    cy as int,
                    x as int,
                    y as int,
                    dy as int,
                    dx as int,
                    d as int,
                ) =~= entry + rest);
            }
        }
        proof {
            assert(consumed =~= total);
            assert forall|a: int, b: int| 0 <= a < w && 0 <= b < h implies (#[trigger] self.pixel(
                a,
                b,
            )) == (old(self).pixel(a, b) || total.contains((a, b))) by {
                assert(self.pixel(a, b) == self.grid_view()[a]@[b]);
                assert(old(self).pixel(a, b) == base[a]@[b]);
            }
        }
    }

    /// Pins a text label at terminal cell `(row, col)`, appended to
    /// the label buffer.
    pub fn write_label(&mut self, row: u16, col: u16, message: &str)
        requires
            old(self).wf(),
        ensures
            final(self).wf(),
            final(self).spec_size() == old(self).spec_size(),
            forall|a: int, b: int|
                0 <= a < old(self).spec_size().0 && 0 <= b < old(self).spec_size().1 ==> (
                #[trigger] final(self).pixel(a, b)) == old(self).pixel(a, b),
            final(self).labels_view().len() == old(self).labels_view().len() + 1,
            forall|i: int|
                0 <= i < old(self).labels_view().len() ==> #[trigger] final(self).labels_view()[i]
                    == old(self).labels_view()[i],
            final(self).labels_view().last().message@ == message@,
            final(self).labels_view().last().position == (row, col),
    {
        let label = TextLabel { message: message.to_owned(), position: (row, col) };
        self.text_buffer.push(label);
    }

    /// Whether the pixel at `(x, y)` is lit.
    pub fn pixel_at(&self, x: u16, y: u16) -> (lit: bool)
        requires
            self.wf(),
            x < self.spec_size().0,
            y < self.spec_size().1,
        ensures
            lit == self.pixel(x as int, y as int),
    {
        self.pixel_grid[x as usize][y as usize]
    }

    /// The pinned labels, for the output sink to draw after the
    /// glyphs.
    pub fn labels(&self) -> (labels: &Vec<TextLabel>)
        ensures
            labels@ == self.labels_view(),
    {
        &self.text_buffer
    }

    /// Encodes the current pixel grid as the Braille glyph stream to
    /// print from the top-left cell, block rows from the bottom of
    /// the grid upward.
    pub fn render(&self) -> (chars: Vec<char>)
        requires
            self.wf(),
            self.spec_size().0 > 0,
            self.spec_size().1 > 0,
            self.spec_size().0 % 2 == 0,
            self.spec_size().1 % 4 == 0,
        ensures
            chars@.len() == (self.spec_size().1 as int / 4) * (self.spec_size().0 as int / 2),
            forall|rb: int, cb: int|
                0 <= rb < self.spec_size().1 as int / 4 && 0 <= cb < self.spec_size().0 as int / 2
                    ==> (#[trigger] chars@[rb * (self.spec_size().0 as int / 2) + cb]) as u32
                    == glyph_code(
                    block_dots_up(self.grid_view(), 2 * cb, self.spec_size().1 as int - 1 - 4 * rb),
                ),
    {
        encode_rows_upward(&self.pixel_grid)
    }

    /// Resets every pixel to unlit and clears the label buffer; the
    /// size is kept.
    pub fn clear(&mut self)
        requires
            old(self).wf(),
        ensures
            final(self).wf(),
            final(self).spec_size() == old(self).spec_size(),
            forall|a: int, b: int|
                0 <= a < old(self).spec_size().0 && 0 <= b < old(self).spec_size().1 ==> !(
                #[trigger] final(self).pixel(a, b)),
            final(self).labels_view() == Seq::<TextLabel>::empty(),
    {
        self.pixel_grid = make_grid(self.term_size.0 as usize, self.term_size.1 as usize);
        self.text_buffer = Vec::new();
    }
}

} // verus!
