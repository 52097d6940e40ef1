//! The 3D renderer: projects models onto a color screen buffer and
//! rasterizes their faces, as wireframe edges or as flat-shaded
//! filled triangles, then encodes the buffer through the viewport.
//!
//! There is no depth buffer: faces draw in submission order and the
//! last writer wins, an accepted limitation of the design.

use crate::color::Color;
use crate::fixed::pixel_of;
use crate::fixed::to_pixel;
use crate::fixed::vec_view;
use crate::model::transformed_spec;
use crate::model::Model;
use crate::primitives::line_pts;
use crate::primitives::line_points_wide;
use crate::primitives::pts_view;
use crate::braille::glyph_code;
use crate::color::mean_color;
use crate::viewport::color_block_dots_up;
use crate::viewport::color_grid_wf;
use crate::viewport::lit_dots;
use crate::viewport::GlyphLine;
use crate::viewport::Viewport;
use vstd::prelude::*;
use vstd::seq_lib::lemma_seq_concat_contains_all_elements;
use vstd::seq_lib::lemma_seq_contains_after_push;
use vstd::seq_lib::lemma_seq_empty_contains_nothing;

verus! {

broadcast use lemma_seq_concat_contains_all_elements, lemma_seq_contains_after_push, lemma_seq_empty_contains_nothing;

/// Whether faces are drawn as edge lines or as filled, flat-shaded
/// triangles; chosen at construction.
#[derive(Clone, Copy, Debug, PartialEq, Eq, Structural)]
pub enum RenderMode {
    Wireframe,
    Filled,
}

/// The color of wireframe edges.
pub open spec fn white() -> Color {
    Color(255, 255, 255)
}

/// The signed edge function of the directed edge `v0 -> v1` at `p`:
/// nonnegative when `p` lies on the inner side of the edge under the
/// winding the rasterizer assumes.
pub open spec fn edge_fn(v0: (int, int), v1: (int, int), p: (int, int)) -> int {
    -((p.0 - v0.0) * (v1.1 - v0.1) - (p.1 - v0.1) * (v1.0 - v0.0))
}

/// A point is inside the triangle when all three edge functions are
/// nonnegative; a face with the opposite winding fills nothing.
pub open spec fn inside_triangle(
    p0: (int, int),
    p1: (int, int),
    p2: (int, int),
    p: (int, int),
) -> bool {
    edge_fn(p0, p1, p) >= 0 && edge_fn(p1, p2, p) >= 0 && edge_fn(p2, p0, p) >= 0
}

/// The smallest of three values.
pub open spec fn min3(a: int, b: int, c: int) -> int {
    if a <= b && a <= c {
        a
    } else if b <= c {
        b
    } else {
        c
    }
}

/// The largest of three values.
pub open spec fn max3(a: int, b: int, c: int) -> int {
    if a >= b && a >= c {
        a
    } else if b >= c {
        b
    } else {
        c
    }
}

/// Whether the triangle's fill writes the pixel `(a, b)`: inside the
/// bounding box of the three points (upper edges exclusive) and
/// inside the triangle itself.
pub open spec fn tri_covers(p0: (int, int), p1: (int, int), p2: (int, int), a: int, b: int) -> bool {
    &&& min3(p0.0, p1.0, p2.0) <= a < max3(p0.0, p1.0, p2.0)
    &&& min3(p0.1, p1.1, p2.1) <= b < max3(p0.1, p1.1, p2.1)
    &&& inside_triangle(p0, p1, p2, (a, b))
}

/// Builds an all-black color grid of `w` columns by `h` rows.
fn make_color_grid(w: usize, h: usize) -> (g: Vec<Vec<Color>>)
    ensures
        color_grid_wf(g@, w as int, h as int),
        forall|a: int, b: int|
            0 <= a < w && 0 <= b < h ==> (#[trigger] g@[a]@[b]) == Color(0, 0, 0),
{
    let mut g: Vec<Vec<Color>> = Vec::new();
    let mut a: usize = 0;
    while a < w
        invariant
            0 <= a <= w,
            g@.len() == a,
            forall|i: int| 0 <= i < a ==> (#[trigger] g@[i])@.len() == h,
            forall|i: int, b: int|
                0 <= i < a && 0 <= b < h ==> (#[trigger] g@[i]@[b]) == Color(0, 0, 0),
        decreases w - a,
    {
        let mut col: Vec<Color> = Vec::new();
        let mut b: usize = 0;
        while b < h
            invariant
                0 <= b <= h,
                col@.len() == b,
                forall|j: int| 0 <= j < b ==> (#[trigger] col@[j]) == Color(0, 0, 0),
            decreases h - b,
        {
            col.push(Color(0, 0, 0));
            b = b + 1;
        }
        g.push(col);
        a = a + 1;
    }
    g
}

/// Writes every in-range point of `pts` with `color`; points outside
/// the grid are silently dropped.
fn write_color_points(grid: &mut Vec<Vec<Color>>, pts: &Vec<(i64, i64)>, color: Color)
    requires
        color_grid_wf(old(grid)@, old(grid)@.len() as int, cgrid_height(old(grid)@)),
        old(grid)@.len() <= 0xFFFF,
        cgrid_height(old(grid)@) <= 0xFFFF,
    ensures
        final(grid)@.len() == old(grid)@.len(),
        cgrid_height(final(grid)@) == cgrid_height(old(grid)@),
        color_grid_wf(final(grid)@, old(grid)@.len() as int, cgrid_height(old(grid)@)),
        forall|a: int, b: int|
            0 <= a < old(grid)@.len() && 0 <= b < cgrid_height(old(grid)@) ==> (
            #[trigger] final(grid)@[a]@[b]) == (if pts_view(pts@).contains((a, b)) {
                color
            } else {
                old(grid)@[a]@[b]
            }),
{
    let w: usize = grid.len();
    let h: usize = if w == 0 {
        0
    } else {
        grid[0].len()
    };
    let ghost vp = pts_view(pts@);
    let mut i: usize = 0;
    while i < pts.len()
        invariant
            w == grid@.len(),
            h as int == cgrid_height(grid@),
            w <= 0xFFFF,
            h <= 0xFFFF,
            color_grid_wf(grid@, w as int, h as int),
            vp == pts_view(pts@),
            0 <= i <= pts@.len(),
            forall|a: int, b: int|
                0 <= a < w && 0 <= b < h ==> (#[trigger] grid@[a]@[b]) == (if vp.take(
                    i as int,
                ).contains((a, b)) {
                    color
                } else {
                    old(grid)@[a]@[b]
                }),
        decreases pts@.len() - i,
    {
        let p = pts[i];
        let ghost pre = grid@;
        assert(vp[i as int] == (p.0 as int, p.1 as int));
        assert(vp.take(i as int + 1) =~= vp.take(i as int).push(vp[i as int]));
        if p.0 >= 0 && p.0 < w as i64 && p.1 >= 0 && p.1 < h as i64 {
            let a = p.0 as usize;
            let b = p.1 as usize;
            grid[a][b] = color;
            assert(grid@[a as int]@ =~= pre[a as int]@.update(b as int, color));
            assert forall|aa: int, bb: int| 0 <= aa < w && 0 <= bb < h implies (
            #[trigger] grid@[aa]@[bb]) == (if vp.take(i as int + 1).contains((aa, bb)) {
                color
            } else {
                old(grid)@[aa]@[bb]
            }) by {
                if aa == a as int && bb == b as int {
                    assert(vp.take(i as int + 1).contains(vp[i as int]));
                } else {
                    assert(grid@[aa]@[bb] == pre[aa]@[bb]);
                    assert((aa, bb) != vp[i as int]);
                }
            }
        } else {
            assert forall|aa: int, bb: int| 0 <= aa < w && 0 <= bb < h implies (
            #[trigger] grid@[aa]@[bb]) == (if vp.take(i as int + 1).contains((aa, bb)) {
                color
            } else {
                old(grid)@[aa]@[bb]
            }) by {
                assert((aa, bb) != vp[i as int]);
            }
        }
        i = i + 1;
    }
    assert(vp.take(pts@.len() as int) =~= vp);
}

/// The row count of a color grid: the height of its first column, or
/// zero for an empty grid.
pub open spec fn cgrid_height(g: Seq<Vec<Color>>) -> int {
    if g.len() == 0 {
        0
    } else {
        g[0]@.len() as int
    }
}

/// A renderer with a color screen buffer the size of its viewport.
/// A frame is `clear`, any number of draw calls, then `render`.
pub struct Renderer {
    /// The viewport that the renderer draws onto.
    pub viewport: Viewport,
    screen_buffer: Vec<Vec<Color>>,
    mode: RenderMode,
}

impl Renderer {
    /// The render mode chosen at construction.
    pub closed spec fn spec_mode(&self) -> RenderMode {
        self.mode
    }

    /// The viewport, for contracts.
    pub closed spec fn spec_viewport(&self) -> Viewport {
        self.viewport
    }

    /// The viewport's pixel size, for contracts.
    pub open spec fn vp_size(&self) -> (u16, u16) {
        self.spec_viewport().spec_size()
    }

    /// The viewport's terminal-cell origin, for contracts.
    pub open spec fn vp_origin(&self) -> (u16, u16) {
        self.spec_viewport().spec_origin()
    }

    /// The whole screen buffer, for contracts over encoded output.
    pub closed spec fn buffer_view(&self) -> Seq<Vec<Color>> {
        self.screen_buffer@
    }

    /// The buffer matches the viewport size, which fits the signed
    /// 16-bit pixel coordinates.
    pub closed spec fn wf(&self) -> bool {
        &&& color_grid_wf(
            self.screen_buffer@,
            self.viewport.spec_size().0 as int,
            self.viewport.spec_size().1 as int,
        )
        &&& self.viewport.spec_size().0 <= 0x7FFE
        &&& self.viewport.spec_size().1 <= 0x7FFC
    }

    /// Builds a filled-mode renderer over the viewport.
    pub fn new(viewport: Viewport) -> (r: Renderer)
        requires
            viewport.spec_size().0 <= 0x7FFE,
            viewport.spec_size().1 <= 0x7FFC,
        ensures
            r.wf(),
            r.spec_viewport() == viewport,
            r.spec_mode() == RenderMode::Filled,
            forall|a: int, b: int|
                0 <= a < viewport.spec_size().0 && 0 <= b < viewport.spec_size().1 ==> (
                #[trigger] r.buffer_view()[a]@[b]) == Color(0, 0, 0),
    {
        let size = viewport.size();
        Renderer {
            screen_buffer: make_color_grid(size.0 as usize, size.1 as usize),
            viewport,
            mode: RenderMode::Filled,
        }
    }

    /// Builds a wireframe-mode renderer over the viewport.
    pub fn new_wireframe(viewport: Viewport) -> (r: Renderer)
        requires
            viewport.spec_size().0 <= 0x7FFE,
            viewport.spec_size().1 <= 0x7FFC,
        ensures
            r.wf(),
            r.spec_viewport() == viewport,
            r.spec_mode() == RenderMode::Wireframe,
            forall|a: int, b: int|
                0 <= a < viewport.spec_size().0 && 0 <= b < viewport.spec_size().1 ==> (
                #[trigger] r.buffer_view()[a]@[b]) == Color(0, 0, 0),
    {
        let size = viewport.size();
        Renderer {
            screen_buffer: make_color_grid(size.0 as usize, size.1 as usize),
            viewport,
            mode: RenderMode::Wireframe,
        }
    }

    /// Resets the screen buffer to all black; viewport and mode are
    /// kept.
    pub fn clear(&mut self)
        requires
            old(self).wf(),
        ensures
            final(self).wf(),
            final(self).spec_viewport() == old(self).spec_viewport(),
            final(self).spec_mode() == old(self).spec_mode(),
            forall|a: int, b: int|
                0 <= a < old(self).spec_viewport().spec_size().0 && 0 <= b
                    < old(self).spec_viewport().spec_size().1 ==> (#[trigger] final(self).buffer_view()[a]@[b]) == Color(0, 0, 0),
    {
        let size = self.viewport.size();
        self.screen_buffer = make_color_grid(size.0 as usize, size.1 as usize);
    }

    /// Draws the Bresenham line between two projected points in the
    /// given color; off-screen points are silently dropped.
    fn draw_line_color(&mut self, x1: i64, y1: i64, x2: i64, y2: i64, color: Color)
        requires
            old(self).wf(),
            -1000000 <= x1 <= 1000000,
            -1000000 <= y1 <= 1000000,
            -1000000 <= x2 <= 1000000,
            -1000000 <= y2 <= 1000000,
        ensures
            final(self).wf(),
            final(self).spec_viewport() == old(self).spec_viewport(),
            final(self).spec_mode() == old(self).spec_mode(),
            forall|a: int, b: int|
                0 <= a < old(self).spec_viewport().spec_size().0 && 0 <= b < old(self).spec_viewport().spec_size().1 ==> (#[trigger] final(self).buffer_view()[a]@[b])
                    == (if line_pts(x1 as int, y1 as int, x2 as int, y2 as int).contains((a, b)) {
                    color
                } else {
                    old(self).buffer_view()[a]@[b]
                }),
    {
        let pts = line_points_wide(x1, y1, x2, y2);
        write_color_points(&mut self.screen_buffer, &pts, color);
    }

    /// The color of the screen buffer pixel at `(x, y)`.
    pub fn pixel_color(&self, x: u16, y: u16) -> (c: Color)
        requires
            self.wf(),
            x < self.spec_viewport().spec_size().0,
            y < self.spec_viewport().spec_size().1,
        ensures
            c == self.buffer_view()[x as int]@[y as int],
    {
        self.screen_buffer[x as usize][y as usize]
    }

    /// Rasterizes the triangle interior: every pixel of the bounding
    /// box (upper edges exclusive) whose three edge functions are all
    /// nonnegative is written with `color`; everything else is kept.
    pub fn draw_triangle(&mut self, v0: (i16, i16), v1: (i16, i16), v2: (i16, i16), color: Color)
        requires
            old(self).wf(),
        ensures
            final(self).wf(),
            final(self).spec_viewport() == old(self).spec_viewport(),
            final(self).spec_mode() == old(self).spec_mode(),
            forall|a: int, b: int|
                0 <= a < old(self).spec_viewport().spec_size().0 && 0 <= b < old(self).spec_viewport().spec_size().1 ==> (#[trigger] final(self).buffer_view()[a]@[b])
                    == (if tri_covers(
                    (v0.0 as int, v0.1 as int),
                    (v1.0 as int, v1.1 as int),
                    (v2.0 as int, v2.1 as int),
                    a,
                    b,
                ) {
                    color
                } else {
                    old(self).buffer_view()[a]@[b]
                }),
    {
        let ghost p0 = (v0.0 as int, v0.1 as int);
        let ghost p1 = (v1.0 as int, v1.1 as int);
        let ghost p2 = (v2.0 as int, v2.1 as int);
        let ghost base = self.screen_buffer@;
        let ghost w = self.spec_viewport().spec_size().0 as int;
        let ghost h = self.spec_viewport().spec_size().1 as int;
        let minx: i64 = min3_exec(v0.0 as i64, v1.0 as i64, v2.0 as i64);
        let maxx: i64 = max3_exec(v0.0 as i64, v1.0 as i64, v2.0 as i64);
        let miny: i64 = min3_exec(v0.1 as i64, v1.1 as i64, v2.1 as i64);
        let maxy: i64 = max3_exec(v0.1 as i64, v1.1 as i64, v2.1 as i64);
        let mut x: i64 = minx;
        while x < maxx
            invariant
                self.wf(),
                self.spec_viewport() == old(self).spec_viewport(),
                self.spec_mode() == old(self).spec_mode(),
                w == self.spec_viewport().spec_size().0 as int,
                h == self.spec_viewport().spec_size().1 as int,
                p0 == (v0.0 as int, v0.1 as int),
                p1 == (v1.0 as int, v1.1 as int),
                p2 == (v2.0 as int, v2.1 as int),
                base == old(self).buffer_view(),
                minx == min3(p0.0, p1.0, p2.0),
                maxx == max3(p0.0, p1.0, p2.0),
                miny == min3(p0.1, p1.1, p2.1),
                maxy == max3(p0.1, p1.1, p2.1),
                -40000 <= p0.0 <= 40000 && -40000 <= p0.1 <= 40000,
                -40000 <= p1.0 <= 40000 && -40000 <= p1.1 <= 40000,
                -40000 <= p2.0 <= 40000 && -40000 <= p2.1 <= 40000,
                minx <= x <= maxx,
                forall|a: int, b: int|
                    0 <= a < w && 0 <= b < h ==> (#[trigger] self.screen_buffer@[a]@[b]) == (
                    if tri_covers(p0, p1, p2, a, b) && a < x {
                        color
                    } else {
                        base[a]@[b]
                    }),
            decreases maxx - x,
        {
            let mut y: i64 = miny;
            while y < maxy
                invariant
                    self.wf(),
                    self.spec_viewport() == old(self).spec_viewport(),
                    self.spec_mode() == old(self).spec_mode(),
                    w == self.spec_viewport().spec_size().0 as int,
                    h == self.spec_viewport().spec_size().1 as int,
                    p0 == (v0.0 as int, v0.1 as int),
                    p1 == (v1.0 as int, v1.1 as int),
                    p2 == (v2.0 as int, v2.1 as int),
                    base == old(self).buffer_view(),
                    minx == min3(p0.0, p1.0, p2.0),
                    maxx == max3(p0.0, p1.0, p2.0),
                    miny == min3(p0.1, p1.1, p2.1),
                    maxy == max3(p0.1, p1.1, p2.1),
                    -40000 <= p0.0 <= 40000 && -40000 <= p0.1 <= 40000,
                    -40000 <= p1.0 <= 40000 && -40000 <= p1.1 <= 40000,
                    -40000 <= p2.0 <= 40000 && -40000 <= p2.1 <= 40000,
                    minx <= x < maxx,
                    miny <= y <= maxy,
                    forall|a: int, b: int|
                        0 <= a < w && 0 <= b < h ==> (#[trigger] self.screen_buffer@[a]@[b]) == (
                        if tri_covers(p0, p1, p2, a, b) && (a < x || (a == x && b < y)) {
                            color
                        } else {
                            base[a]@[b]
                        }),
                decreases maxy - y,
            {
                let e0 = edge_val(v0, v1, x, y);
                let e1 = edge_val(v1, v2, x, y);
                let e2 = edge_val(v2, v0, x, y);
                proof {
                    assert(e0 as int == edge_fn(p0, p1, (x as int, y as int)));
                    assert(e1 as int == edge_fn(p1, p2, (x as int, y as int)));
                    assert(e2 as int == edge_fn(p2, p0, (x as int, y as int)));
                }
                let inside: bool = e0 >= 0 && e1 >= 0 && e2 >= 0;
                let ghost pre = self.screen_buffer@;
                if inside && x >= 0 && x < self.viewport.size().0 as i64 && y >= 0 && y
                    < self.viewport.size().1 as i64 {
                    let a = x as usize;
                    let b = y as usize;
                    self.screen_buffer[a][b] = color;
                    assert(self.screen_buffer@[a as int]@ =~= pre[a as int]@.update(
                        b as int,
                        color,
                    ));
                }
                proof {
                    assert forall|a: int, b: int| 0 <= a < w && 0 <= b < h implies (
                    #[trigger] self.screen_buffer@[a]@[b]) == (if tri_covers(p0, p1, p2, a, b) && (
                    a < x || (a == x && b < y + 1)) {
                        color
                    } else {
                        base[a]@[b]
                    }) by {
                        assert(pre[a]@[b] == (if tri_covers(p0, p1, p2, a, b) && (a < x || (a == x
                            && b < y)) {
                            color
                        } else {
                            base[a]@[b]
                        }));
                        if a == x && b == y {
                            if tri_covers(p0, p1, p2, a, b) {
                                assert(inside);
                                assert(self.screen_buffer@[a]@[b] == color);
                            } else {
                                assert(!inside);
                                assert(self.screen_buffer@[a]@[b] == pre[a]@[b]);
                            }
                        } else {
                            assert(self.screen_buffer@[a]@[b] == pre[a]@[b]);
                        }
                    }
                }
                y = y + 1;
            }
            x = x + 1;
        }
        proof {
            assert forall|a: int, b: int| 0 <= a < w && 0 <= b < h implies (#[trigger] final(self).buffer_view()[a]@[b]) == (if tri_covers(p0, p1, p2, a, b) {
                color
            } else {
                base[a]@[b]
            }) by {}
        }
    }

    /// Draws one projected face according to the render mode. In
    /// wireframe mode the three edges are drawn bright white, whatever
    /// the intensity. In filled mode the triangle is filled with the
    /// flat gray of `intensity`, except that a face whose lighting
    /// intensity is exactly zero is skipped entirely: it is
    /// back-facing or grazing, and skipping it doubles as a crude
    /// backface cull.
    pub fn draw_face(&mut self, v0: (i16, i16), v1: (i16, i16), v2: (i16, i16), intensity: u8)
        requires
            old(self).wf(),
        ensures
            final(self).wf(),
            final(self).spec_viewport() == old(self).spec_viewport(),
            final(self).spec_mode() == old(self).spec_mode(),
            old(self).spec_mode() == RenderMode::Filled && intensity == 0 ==> final(self).buffer_view() == old(self).buffer_view(),
            old(self).spec_mode() == RenderMode::Filled && intensity > 0 ==> forall|a: int, b: int|
                0 <= a < old(self).vp_size().0 && 0 <= b < old(self).vp_size().1 ==> (
                #[trigger] final(self).buffer_view()[a]@[b]) == (if tri_covers(
                    (v0.0 as int, v0.1 as int),
                    (v1.0 as int, v1.1 as int),
                    (v2.0 as int, v2.1 as int),
                    a,
                    b,
                ) {
                    Color(intensity, intensity, intensity)
                } else {
                    old(self).buffer_view()[a]@[b]
                }),
            old(self).spec_mode() == RenderMode::Wireframe ==> forall|a: int, b: int|
                0 <= a < old(self).vp_size().0 && 0 <= b < old(self).vp_size().1 ==> (
                #[trigger] final(self).buffer_view()[a]@[b]) == (if wire_tri_pts(
                    (v0.0 as int, v0.1 as int),
                    (v1.0 as int, v1.1 as int),
                    (v2.0 as int, v2.1 as int),
                ).contains((a, b)) {
                    white()
                } else {
                    old(self).buffer_view()[a]@[b]
                }),
    {
        let ghost p0 = (v0.0 as int, v0.1 as int);
        let ghost p1 = (v1.0 as int, v1.1 as int);
        let ghost p2 = (v2.0 as int, v2.1 as int);
        let ghost w = self.spec_viewport().spec_size().0 as int;
        let ghost h = self.spec_viewport().spec_size().1 as int;
        let is_wireframe: bool = match self.mode {
            RenderMode::Wireframe => true,
            RenderMode::Filled => false,
        };
        if is_wireframe {
            self.draw_line_color(
                v0.0 as i64,
                v0.1 as i64,
                v1.0 as i64,
                v1.1 as i64,
                Color(255, 255, 255),
            );
            self.draw_line_color(
                v1.0 as i64,
                v1.1 as i64,
                v2.0 as i64,
                v2.1 as i64,
                Color(255, 255, 255),
            );
            self.draw_line_color(
                v2.0 as i64,
                v2.1 as i64,
                v0.0 as i64,
                v0.1 as i64,
                Color(255, 255, 255),
            );
            proof {
                assert forall|a: int, b: int| 0 <= a < w && 0 <= b < h implies (
                #[trigger] self.buffer_view()[a]@[b]) == (if wire_tri_pts(p0, p1, p2).contains(
                    (a, b),
                ) {
                    white()
                } else {
                    old(self).buffer_view()[a]@[b]
                }) by {}
            }
        } else if intensity > 0 {
            self.draw_triangle(v0, v1, v2, Color(intensity, intensity, intensity));
        }
    }

    /// Draws a model's faces as wireframe edges: each face's three
    /// vertices are fetched by their 1-based indices, taken through
    /// the model's transform, truncated to screen pixels, and joined
    /// by bright lines. Faces draw in buffer order.
    pub fn draw_object(&mut self, model: &Model)
        requires
            old(self).wf(),
            model.wf(),
        ensures
            final(self).wf(),
            final(self).spec_viewport() == old(self).spec_viewport(),
            final(self).spec_mode() == old(self).spec_mode(),
            forall|a: int, b: int|
                0 <= a < old(self).spec_viewport().spec_size().0 && 0 <= b < old(self).spec_viewport().spec_size().1 ==> (#[trigger] final(self).buffer_view()[a]@[b])
                    == (if wire_pts_upto(*model, model.index_buffer@.len() as int).contains(
                    (a, b),
                ) {
                    white()
                } else {
                    old(self).buffer_view()[a]@[b]
                }),
    {
        let ghost w = self.spec_viewport().spec_size().0 as int;
        let ghost h = self.spec_viewport().spec_size().1 as int;
        let n_faces: usize = model.index_buffer.len();
        let ghost mut consumed = Seq::<(int, int)>::empty();
        let mut k: usize = 0;
        while k < n_faces
            invariant
                self.wf(),
                model.wf(),
                self.spec_viewport() == old(self).spec_viewport(),
                self.spec_mode() == old(self).spec_mode(),
                w == self.spec_viewport().spec_size().0 as int,
                h == self.spec_viewport().spec_size().1 as int,
                n_faces == model.index_buffer@.len(),
                0 <= k <= n_faces,
                consumed == wire_pts_upto(*model, k as int),
                forall|a: int, b: int|
                    0 <= a < w && 0 <= b < h ==> (#[trigger] self.buffer_view()[a]@[b]) == (
                    if consumed.contains((a, b)) {
                        white()
                    } else {
                        old(self).buffer_view()[a]@[b]
                    }),
            decreases n_faces - k,
        {
            let face = model.index_buffer[k];
            let av = model.transform_and_get_vertex_at(face.indexes.0 - 1);
            let bv = model.transform_and_get_vertex_at(face.indexes.1 - 1);
            let cv = model.transform_and_get_vertex_at(face.indexes.2 - 1);
            let ax = to_pixel(av.position.x);
            let ay = to_pixel(av.position.y);
            let bx = to_pixel(bv.position.x);
            let by = to_pixel(bv.position.y);
            let cx = to_pixel(cv.position.x);
            let cy = to_pixel(cv.position.y);
            let ghost pa = project_pt(*model, face.indexes.0 - 1);
            let ghost pb = project_pt(*model, face.indexes.1 - 1);
            let ghost pc = project_pt(*model, face.indexes.2 - 1);
            assert((ax as int, ay as int) == pa);
            assert((bx as int, by as int) == pb);
            assert((cx as int, cy as int) == pc);
            self.draw_line_color(ax as i64, ay as i64, bx as i64, by as i64, Color(255, 255, 255));
            self.draw_line_color(bx as i64, by as i64, cx as i64, cy as i64, Color(255, 255, 255));
            self.draw_line_color(cx as i64, cy as i64, ax as i64, ay as i64, Color(255, 255, 255));
            proof {
                consumed = consumed + face_wire_pts(*model, k as int);
                assert(consumed == wire_pts_upto(*model, k as int + 1));
                assert forall|a: int, b: int| 0 <= a < w && 0 <= b < h implies (
                #[trigger] self.buffer_view()[a]@[b]) == (if consumed.contains((a, b)) {
                    white()
                } else {
                    old(self).buffer_view()[a]@[b]
                }) by {}
            }
            k = k + 1;
        }
    }

    /// Encodes the screen buffer as positioned, colored glyph lines
    /// through the viewport.
    pub fn render(&self) -> (lines: Vec<GlyphLine>)
        requires
            self.wf(),
            self.vp_size().0 > 0,
            self.vp_size().1 > 0,
            self.vp_size().0 % 2 == 0,
            self.vp_size().1 % 4 == 0,
            self.vp_origin().1 + self.vp_size().1 / 4 <= u16::MAX,
        ensures
            lines@.len() == self.vp_size().1 as int / 4,
            forall|rb: int|
                0 <= rb < self.vp_size().1 as int / 4 ==> {
                    let line = #[trigger] lines@[rb];
                    &&& line.x == self.vp_origin().0
                    &&& line.y == self.vp_origin().1 + rb
                    &&& line.cells@.len() == self.vp_size().0 as int / 2
                },
            forall|rb: int, cb: int|
                0 <= rb < self.vp_size().1 as int / 4 && 0 <= cb < self.vp_size().0 as int / 2 ==> {
                    let cell = #[trigger] lines@[rb].cells@[cb];
                    let dots = color_block_dots_up(
                        self.buffer_view(),
                        2 * cb,
                        self.vp_size().1 as int - 1 - 4 * rb,
                    );
                    &&& cell.glyph as u32 == glyph_code(lit_dots(dots))
                    &&& cell.color == mean_color(dots)
                },
    {
        self.viewport.draw_chars(&self.screen_buffer)
    }
}

/// The pixels of a triangle's three wireframe edges.
pub open spec fn wire_tri_pts(p0: (int, int), p1: (int, int), p2: (int, int)) -> Seq<(int, int)> {
    line_pts(p0.0, p0.1, p1.0, p1.1) + line_pts(p1.0, p1.1, p2.0, p2.1) + line_pts(
        p2.0,
        p2.1,
        p0.0,
        p0.1,
    )
}

/// The screen point of a model vertex: the vertex taken through the
/// model's transform, its x and y truncated to pixels, z discarded.
pub open spec fn project_pt(m: Model, vi: int) -> (int, int) {
    let t = transformed_spec(m.spec_transform(), vec_view(m.vertex_buffer@[vi].position));
    (pixel_of(t.0), pixel_of(t.1))
}

/// The wireframe pixels of one face of a model: the three edges
/// between its projected vertices (indices are 1-based).
pub open spec fn face_wire_pts(m: Model, k: int) -> Seq<(int, int)> {
    let f = m.index_buffer@[k];
    wire_tri_pts(
        project_pt(m, f.indexes.0 - 1),
        project_pt(m, f.indexes.1 - 1),
        project_pt(m, f.indexes.2 - 1),
    )
}

/// The wireframe pixels of the first `k` faces of a model, in
/// drawing order.
pub open spec fn wire_pts_upto(m: Model, k: int) -> Seq<(int, int)>
    decreases k,
{
    if k <= 0 {
        Seq::empty()
    } else {
        wire_pts_upto(m, k - 1) + face_wire_pts(m, k - 1)
    }
}

/// Whether perspective camera parameters are admissible: the aspect
/// ratio and the vertical field of view must be positive, and the
/// near and far planes must be positive and ordered. A camera built
/// from rejected parameters would produce degenerate matrices.
pub fn camera_params_ok(aspect: i64, fovy: i64, znear: i64, zfar: i64) -> (ok: bool)
    ensures
        ok == (aspect > 0 && fovy > 0 && znear > 0 && zfar > znear),
{
    aspect > 0 && fovy > 0 && znear > 0 && zfar > znear
}

/// The smallest of three machine values.
fn min3_exec(a: i64, b: i64, c: i64) -> (r: i64)
    ensures
        r == min3(a as int, b as int, c as int),
{
    if a <= b && a <= c {
        a
    } else if b <= c {
        b
    } else {
        c
    }
}

/// The largest of three machine values.
fn max3_exec(a: i64, b: i64, c: i64) -> (r: i64)
    ensures
        r == max3(a as int, b as int, c as int),
{
    if a >= b && a >= c {
        a
    } else if b >= c {
        b
    } else {
        c
    }
}

/// The signed edge function of the edge `v0 -> v1` at `(px, py)`.
fn edge_val(v0: (i16, i16), v1: (i16, i16), px: i64, py: i64) -> (e: i64)
    requires
        -40000 <= px <= 40000,
        -40000 <= py <= 40000,
    ensures
        e as int == edge_fn(
            (v0.0 as int, v0.1 as int),
            (v1.0 as int, v1.1 as int),
            (px as int, py as int),
        ),
{
    let x0: i64 = v0.0 as i64;
    let y0: i64 = v0.1 as i64;
    let x1: i64 = v1.0 as i64;
    let y1: i64 = v1.1 as i64;
    proof {
        assert((px - x0) * (y1 - y0) <= 80000 * 80000 && (px - x0) * (y1 - y0) >= -(80000
            * 80000)) by (nonlinear_arith)
            requires
                -80000 <= px - x0 <= 80000 && -80000 <= y1 - y0 <= 80000,
        ;
        assert((py - y0) * (x1 - x0) <= 80000 * 80000 && (py - y0) * (x1 - x0) >= -(80000
            * 80000)) by (nonlinear_arith)
            requires
                -80000 <= py - y0 <= 80000 && -80000 <= x1 - x0 <= 80000,
        ;
    }
    -((px - x0) * (y1 - y0) - (py - y0) * (x1 - x0))
}

} // verus!
