//! Integer drawing primitives: the exact pixel sequences of the
//! Bresenham line and of the DDA-style circle outline, and the radial
//! spoke fill derived from the latter.
//!
//! Each primitive is specified as a recursive sequence of points that
//! mirrors the drawing loop step by step, so a contract over it pins
//! both the set of pixels and the order in which they are visited.

use vstd::math::abs;
use vstd::math::max;
use vstd::prelude::*;

verus! {

/// The unit step that moves `a` toward `b`, with the tie broken
/// downward as the drawing loops do.
pub open spec fn sign_step(a: int, b: int) -> int {
    if a < b {
        1
    } else {
        -1
    }
}

/// The points visited by the Bresenham loop from state
/// `(x, y, err)` until it reaches `(x2, y2)` or stops at a clamped
/// axis. `dx`, `dy`, `sx`, `sy` are the loop constants: `dx` the
/// absolute run, `dy` the negated absolute rise, `sx`/`sy` the unit
/// steps.
pub open spec fn line_pts_rec(
    x: int,
    y: int,
    x2: int,
    y2: int,
    dx: int,
    dy: int,
    sx: int,
    sy: int,
    err: int,
) -> Seq<(int, int)>
    decreases abs(x2 - x) + abs(y2 - y),
    when (dy <= 0 <= dx && (sx == 1 || sx == -1) && (sy == 1 || sy == -1) && (x < x2 ==> sx == 1)
        && (x > x2 ==> sx == -1) && (y < y2 ==> sy == 1) && (y > y2 ==> sy == -1))
{
    let first = seq![(x, y)];
    if x == x2 && y == y2 {
        first
    } else {
        let e2 = 2 * err;
        if e2 >= dy && x == x2 {
            first
        } else {
            let xn = if e2 >= dy {
                x + sx
            } else {
                x
            };
            let errn = if e2 >= dy {
                err + dy
            } else {
                err
            };
            if e2 <= dx && y == y2 {
                first
            } else {
                let yn = if e2 <= dx {
                    y + sy
                } else {
                    y
                };
                let errn2 = if e2 <= dx {
                    errn + dx
                } else {
                    errn
                };
                first + line_pts_rec(xn, yn, x2, y2, dx, dy, sx, sy, errn2)
            }
        }
    }
}

/// The points of the Bresenham line from `(x1, y1)` to `(x2, y2)`, in
/// visitation order. Both endpoints are always part of the line.
pub open spec fn line_pts(x1: int, y1: int, x2: int, y2: int) -> Seq<(int, int)> {
    let dx = abs(x2 - x1) as int;
    let dy = -(abs(y2 - y1) as int);
    line_pts_rec(x1, y1, x2, y2, dx, dy, sign_step(x1, x2), sign_step(y1, y2), dx + dy)
}

/// A sequence of machine-word points as mathematical points.
pub open spec fn pts_view(s: Seq<(i64, i64)>) -> Seq<(int, int)> {
    s.map_values(|p: (i64, i64)| (p.0 as int, p.1 as int))
}

/// A sequence of pixel points as mathematical points.
pub open spec fn pts_view16(s: Seq<(i16, i16)>) -> Seq<(int, int)> {
    s.map_values(|p: (i16, i16)| (p.0 as int, p.1 as int))
}

/// Generates the Bresenham line points between two coordinates that
/// are at most a few pixel grids away from the origin.
pub fn line_points_wide(x1: i64, y1: i64, x2: i64, y2: i64) -> (pts: Vec<(i64, i64)>)
    requires
        -1000000 <= x1 <= 1000000,
        -1000000 <= y1 <= 1000000,
        -1000000 <= x2 <= 1000000,
        -1000000 <= y2 <= 1000000,
    ensures
        pts_view(pts@) == line_pts(x1 as int, y1 as int, x2 as int, y2 as int),
{
    let mut x: i64 = x1;
    let mut y: i64 = y1;
    let dx: i64 = if x2 >= x1 {
        x2 - x1
    } else {
        x1 - x2
    };
    let dy: i64 = if y2 >= y1 {
        -(y2 - y1)
    } else {
        -(y1 - y2)
    };
    let sx: i64 = if x1 < x2 {
        1
    } else {
        -1
    };
    let sy: i64 = if y1 < y2 {
        1
    } else {
        -1
    };
    let mut err: i64 = dx + dy;
    let mut pts: Vec<(i64, i64)> = Vec::new();
    proof {
        assert(pts_view(pts@) + line_pts_rec(
            x as int,
            y as int,
            x2 as int,
            y2 as int,
            dx as int,
            dy as int,
            sx as int,
            sy as int,
            err as int,
        ) =~= line_pts(x1 as int, y1 as int, x2 as int, y2 as int));
    }
    loop
        invariant_except_break
            dx == abs(x2 - x1),
            dy == -abs(y2 - y1),
            sx == sign_step(x1 as int, x2 as int),
            sy == sign_step(y1 as int, y2 as int),
            x < x2 ==> sx == 1,
            x > x2 ==> sx == -1,
            y < y2 ==> sy == 1,
            y > y2 ==> sy == -1,
            -1000000 <= x1 <= 1000000,
            -1000000 <= y1 <= 1000000,
            -1000000 <= x2 <= 1000000,
            -1000000 <= y2 <= 1000000,
            x2 - abs(x2 - x1) <= x <= x2 + abs(x2 - x1),
            y2 - abs(y2 - y1) <= y <= y2 + abs(y2 - y1),
            2 * dy - dx <= err <= 2 * dx - dy,
            line_pts(x1 as int, y1 as int, x2 as int, y2 as int) == pts_view(pts@)
                + line_pts_rec(
                x as int,
                y as int,
                x2 as int,
                y2 as int,
                dx as int,
                dy as int,
                sx as int,
                sy as int,
                err as int,
            ),
        ensures
            pts_view(pts@) == line_pts(x1 as int, y1 as int, x2 as int, y2 as int),
        decreases abs(x2 - x) + abs(y2 - y),
    {
        let ghost pre = pts_view(pts@);
        let ghost ex: int = x as int;
        let ghost ey: int = y as int;
        let ghost rest = line_pts_rec(
            x as int,
            y as int,
            x2 as int,
            y2 as int,
            dx as int,
            dy as int,
            sx as int,
            sy as int,
            err as int,
        );
        pts.push((x, y));
        assert(pts_view(pts@) =~= pre + seq![(ex, ey)]);
        if x == x2 && y == y2 {
            assert(rest =~= seq![(ex, ey)]);
            break ;
        }
        let e2: i64 = 2 * err;
        if e2 >= dy {
            if x == x2 {
                assert(rest =~= seq![(ex, ey)]);
                break ;
            }
            err = err + dy;
            x = x + sx;
        }
        if e2 <= dx {
            if y == y2 {
                assert(rest =~= seq![(ex, ey)]);
                break ;
            }
            err = err + dx;
            y = y + sy;
        }
        proof {
            assert(pts_view(pts@) + line_pts_rec(
                x as int,
                y as int,
                x2 as int,
                y2 as int,
                dx as int,
                dy as int,
                sx as int,
                sy as int,
                err as int,
            ) =~= pre + rest);
        }
    }
    pts
}

/// Generates the Bresenham line points between two pixel coordinates,
/// in the order the drawing loop visits them.
pub fn line_points(x1: i16, y1: i16, x2: i16, y2: i16) -> (pts: Vec<(i16, i16)>)
    ensures
        pts_view16(pts@) == line_pts(x1 as int, y1 as int, x2 as int, y2 as int),
{
    let wide = line_points_wide(x1 as i64, y1 as i64, x2 as i64, y2 as i64);
    let ghost goal = line_pts(x1 as int, y1 as int, x2 as int, y2 as int);
    proof {
        lemma_line_pts_in_box(x1 as int, y1 as int, x2 as int, y2 as int);
    }
    let mut pts: Vec<(i16, i16)> = Vec::new();
    let mut i: usize = 0;
    while i < wide.len()
        invariant
            pts_view(wide@) == goal,
            forall|k: int|
                0 <= k < goal.len() ==> i16::MIN <= (#[trigger] goal[k]).0 <= i16::MAX
                    && i16::MIN <= goal[k].1 <= i16::MAX,
            0 <= i <= wide@.len(),
            pts@.len() == i,
            forall|k: int|
                0 <= k < i ==> ((#[trigger] pts@[k]).0 as int, pts@[k].1 as int) == goal[k],
        decreases wide@.len() - i,
    {
        let p = wide[i];
        assert((p.0 as int, p.1 as int) == goal[i as int]);
        pts.push((p.0 as i16, p.1 as i16));
        i = i + 1;
    }
    assert(pts_view16(pts@) =~= goal);
    pts
}

/// Every point of a Bresenham line lies in the bounding box of its
/// endpoints.
pub proof fn lemma_line_pts_in_box(x1: int, y1: int, x2: int, y2: int)
    ensures
        forall|k: int|
            0 <= k < line_pts(x1, y1, x2, y2).len() ==> {
                let p = #[trigger] line_pts(x1, y1, x2, y2)[k];
                &&& min_i(x1, x2) <= p.0 <= max_i(x1, x2)
                &&& min_i(y1, y2) <= p.1 <= max_i(y1, y2)
            },
{
    let dx = abs(x2 - x1) as int;
    let dy = -(abs(y2 - y1) as int);
    lemma_line_pts_rec_in_box(
        x1,
        y1,
        x2,
        y2,
        dx,
        dy,
        sign_step(x1, x2),
        sign_step(y1, y2),
        dx + dy,
        min_i(x1, x2),
        max_i(x1, x2),
        min_i(y1, y2),
        max_i(y1, y2),
    );
}

/// The smaller of two integers.
pub open spec fn min_i(a: int, b: int) -> int {
    if a <= b {
        a
    } else {
        b
    }
}

/// The larger of two integers.
pub open spec fn max_i(a: int, b: int) -> int {
    if a <= b {
        b
    } else {
        a
    }
}

proof fn lemma_line_pts_rec_in_box(
    x: int,
    y: int,
    x2: int,
    y2: int,
    dx: int,
    dy: int,
    sx: int,
    sy: int,
    err: int,
    xlo: int,
    xhi: int,
    ylo: int,
    yhi: int,
)
    requires
        dy <= 0 <= dx,
        sx == 1 || sx == -1,
        sy == 1 || sy == -1,
        x < x2 ==> sx == 1,
        x > x2 ==> sx == -1,
        y < y2 ==> sy == 1,
        y > y2 ==> sy == -1,
        xlo <= x <= xhi,
        xlo <= x2 <= xhi,
        ylo <= y <= yhi,
        ylo <= y2 <= yhi,
    ensures
        forall|k: int|
            0 <= k < line_pts_rec(x, y, x2, y2, dx, dy, sx, sy, err).len() ==> {
                let p = #[trigger] line_pts_rec(x, y, x2, y2, dx, dy, sx, sy, err)[k];
                &&& xlo <= p.0 <= xhi
                &&& ylo <= p.1 <= yhi
            },
    decreases abs(x2 - x) + abs(y2 - y),
{
    if x == x2 && y == y2 {
    } else {
        let e2 = 2 * err;
        if e2 >= dy && x == x2 {
        } else {
            let xn = if e2 >= dy {
                x + sx
            } else {
                x
            };
            let errn = if e2 >= dy {
                err + dy
            } else {
                err
            };
            if e2 <= dx && y == y2 {
            } else {
                let yn = if e2 <= dx {
                    y + sy
                } else {
                    y
                };
                let errn2 = if e2 <= dx {
                    errn + dx
                } else {
                    errn
                };
                lemma_line_pts_rec_in_box(
                    xn,
                    yn,
                    x2,
                    y2,
                    dx,
                    dy,
                    sx,
                    sy,
                    errn2,
                    xlo,
                    xhi,
                    ylo,
                    yhi,
                );
                let whole = line_pts_rec(x, y, x2, y2, dx, dy, sx, sy, err);
                let rest = line_pts_rec(xn, yn, x2, y2, dx, dy, sx, sy, errn2);
                assert(whole == seq![(x, y)] + rest);
                assert forall|k: int| 0 <= k < whole.len() implies {
                    let p = #[trigger] whole[k];
                    &&& xlo <= p.0 <= xhi
                    &&& ylo <= p.1 <= yhi
                } by {
                    if k > 0 {
                        assert(whole[k] == rest[k - 1]);
                    }
                }
            }
        }
    }
}

/// The points plotted by the DDA circle loop from state
/// `(x, y, dy, dx, d)`: eight mirrored points per step until `y`
/// passes `x`.
pub open spec fn circle_pts_rec(cx: int, cy: int, x: int, y: int, dy: int, dx: int, d: int) -> Seq<
    (int, int),
>
    decreases max(x + 1 - y, 0),
{
    if y > x {
        Seq::empty()
    } else {
        let pts8 = seq![
            (cx - x, cy - y),
            (cx + x, cy - y),
            (cx - x, cy + y),
            (cx + x, cy + y),
            (cx - y, cy - x),
            (cx + y, cy - x),
            (cx - y, cy + x),
            (cx + y, cy + x),
        ];
        let d1 = d + dy;
        if d1 < 0 {
            pts8 + circle_pts_rec(cx, cy, x - 1, y + 1, dy - 4, dx - 4, d1 + dx)
        } else {
            pts8 + circle_pts_rec(cx, cy, x, y + 1, dy - 4, dx, d1)
        }
    }
}

/// The points of the circle outline of radius `r` around `(cx, cy)`,
/// in the order the drawing loop plots them.
pub open spec fn circle_pts(cx: int, cy: int, r: int) -> Seq<(int, int)> {
    circle_pts_rec(cx, cy, r, 0, -2, 4 * r - 4, 2 * r - 1)
}

/// Generates the circle outline points of radius `r` around
/// `(cx, cy)`, in plotting order.
pub fn circle_points(cx: i16, cy: i16, r: i16) -> (pts: Vec<(i64, i64)>)
    ensures
        pts_view(pts@) == circle_pts(cx as int, cy as int, r as int),
{
    let cxl: i64 = cx as i64;
    let cyl: i64 = cy as i64;
    let rl: i64 = r as i64;
    let mut x: i64 = rl;
    let mut y: i64 = 0;
    let mut dy: i64 = -2;
    let mut dx: i64 = 4 * rl - 4;
    let mut d: i64 = 2 * rl - 1;
    let mut pts: Vec<(i64, i64)> = Vec::new();
    if r < 0 {
        assert(pts_view(pts@) =~= circle_pts(cx as int, cy as int, r as int));
        return pts;
    }
    proof {
        assert(pts_view(pts@) + circle_pts_rec(
            cx as int,
            cy as int,
            x as int,
            y as int,
            dy as int,
            dx as int,
            d as int,
        ) =~= circle_pts(cx as int, cy as int, r as int));
    }
    while y <= x
        invariant
            cxl == cx as int,
            cyl == cy as int,
            rl == r as int,
            rl >= 0,
            0 <= y <= rl + 1,
            y - 2 <= x <= rl,
            dy == -2 - 4 * y,
            dx == 4 * x - 4,
            y <= x ==> d <= 4 * rl,
            d >= 3 * dy,
            circle_pts(cx as int, cy as int, r as int) == pts_view(pts@) + circle_pts_rec(
                cx as int,
                cy as int,
                x as int,
                y as int,
                dy as int,
                dx as int,
                d as int,
            ),
        decreases x + 2 - y,
    {
        let ghost pre = pts_view(pts@);
        let ghost rest = circle_pts_rec(
            cx as int,
            cy as int,
            x as int,
            y as int,
            dy as int,
            dx as int,
            d as int,
        );
        pts.push((cxl - x, cyl - y));
        pts.push((cxl + x, cyl - y));
        pts.push((cxl - x, cyl + y));
        pts.push((cxl + x, cyl + y));
        pts.push((cxl - y, cyl - x));
        pts.push((cxl + y, cyl - x));
        pts.push((cxl - y, cyl + x));
        pts.push((cxl + y, cyl + x));
        assert(pts_view(pts@) =~= pre + seq![
            ((cxl - x) as int, (cyl - y) as int),
            ((cxl + x) as int, (cyl - y) as int),
            ((cxl - x) as int, (cyl + y) as int),
            ((cxl + x) as int, (cyl + y) as int),
            ((cxl - y) as int, (cyl - x) as int),
            ((cxl + y) as int, (cyl - x) as int),
            ((cxl - y) as int, (cyl + x) as int),
            ((cxl + y) as int, (cyl + x) as int),
        ]);
        d = d + dy;
        dy = dy - 4;
        y = y + 1;
        if d < 0 {
            d = d + dx;
            dx = dx - 4;
            x = x - 1;
        }
        proof {
            assert(pts_view(pts@) + circle_pts_rec(
                cx as int,
                cy as int,
                x as int,
                y as int,
                dy as int,
                dx as int,
                d as int,
            ) =~= pre + rest);
        }
    }
    pts
}

/// The eight radial spokes drawn at one circle step: a line from each
/// of the eight mirrored outline points back to the center.
pub open spec fn spoke_pts(cx: int, cy: int, x: int, y: int) -> Seq<(int, int)> {
    line_pts(cx - x, cy - y, cx, cy) + line_pts(cx + x, cy - y, cx, cy) + line_pts(
        cx - x,
        cy + y,
        cx,
        cy,
    ) + line_pts(cx + x, cy + y, cx, cy) + line_pts(cx - y, cy - x, cx, cy) + line_pts(
        cx + y,
        cy - x,
        cx,
        cy,
    ) + line_pts(cx - y, cy + x, cx, cy) + line_pts(cx + y, cy + x, cx, cy)
}

/// The points covered by the radial-spoke fill from one circle loop
/// state onward.
pub open spec fn filled_circle_pts_rec(
    cx: int,
    cy: int,
    x: int,
    y: int,
    dy: int,
    dx: int,
    d: int,
) -> Seq<(int, int)>
    decreases max(x + 1 - y, 0),
{
    if y > x {
        Seq::empty()
    } else {
        let d1 = d + dy;
        if d1 < 0 {
            spoke_pts(cx, cy, x, y) + filled_circle_pts_rec(
                cx,
                cy,
                x - 1,
                y + 1,
                dy - 4,
                dx - 4,
                d1 + dx,
            )
        } else {
            spoke_pts(cx, cy, x, y) + filled_circle_pts_rec(cx, cy, x, y + 1, dy - 4, dx, d1)
        }
    }
}

/// The points of the radial-spoke filled circle of radius `r` around
/// `(cx, cy)`: every circle step draws its eight outline points back
/// to the center. The fill is an approximation that can leave gaps
/// away from the spokes, kept as the drawing loop defines it.
pub open spec fn filled_circle_pts(cx: int, cy: int, r: int) -> Seq<(int, int)> {
    filled_circle_pts_rec(cx, cy, r, 0, -2, 4 * r - 4, 2 * r - 1)
}

/// The circle outline is symmetric under reflection across the
/// vertical axis through its center: a point `(a, b)` is plotted
/// exactly when its mirror `(2 * cx - a, b)` is.
pub proof fn lemma_circle_vertical_symmetry(cx: int, cy: int, r: int)
    ensures
        forall|a: int, b: int|
            #[trigger] circle_pts(cx, cy, r).contains((a, b)) <==> circle_pts(
                cx,
                cy,
                r,
            ).contains((2 * cx - a, b)),
{
    lemma_circle_rec_vertical(cx, cy, r, 0, -2, 4 * r - 4, 2 * r - 1);
}

/// The circle outline is symmetric under reflection across the
/// horizontal axis through its center: a point `(a, b)` is plotted
/// exactly when its mirror `(a, 2 * cy - b)` is.
pub proof fn lemma_circle_horizontal_symmetry(cx: int, cy: int, r: int)
    ensures
        forall|a: int, b: int|
            #[trigger] circle_pts(cx, cy, r).contains((a, b)) <==> circle_pts(
                cx,
                cy,
                r,
            ).contains((a, 2 * cy - b)),
{
    lemma_circle_rec_horizontal(cx, cy, r, 0, -2, 4 * r - 4, 2 * r - 1);
}

proof fn lemma_circle_rec_vertical(cx: int, cy: int, x: int, y: int, dy: int, dx: int, d: int)
    ensures
        forall|a: int, b: int|
            #[trigger] circle_pts_rec(cx, cy, x, y, dy, dx, d).contains((a, b))
                <==> circle_pts_rec(cx, cy, x, y, dy, dx, d).contains((2 * cx - a, b)),
    decreases max(x + 1 - y, 0),
{
    lemma_circle_rec_mirror(cx, cy, x, y, dy, dx, d, true);
}

proof fn lemma_circle_rec_horizontal(cx: int, cy: int, x: int, y: int, dy: int, dx: int, d: int)
    ensures
        forall|a: int, b: int|
            #[trigger] circle_pts_rec(cx, cy, x, y, dy, dx, d).contains((a, b))
                <==> circle_pts_rec(cx, cy, x, y, dy, dx, d).contains((a, 2 * cy - b)),
    decreases max(x + 1 - y, 0),
{
    lemma_circle_rec_mirror(cx, cy, x, y, dy, dx, d, false);
}

/// One step of the circle loop plots a point block that is closed
/// under both reflections, so the whole outline is, by induction over
/// the loop.
proof fn lemma_circle_rec_mirror(
    cx: int,
    cy: int,
    x: int,
    y: int,
    dy: int,
    dx: int,
    d: int,
    vertical: bool,
)
    ensures
        forall|a: int, b: int|
            #[trigger] circle_pts_rec(cx, cy, x, y, dy, dx, d).contains((a, b))
                <==> circle_pts_rec(cx, cy, x, y, dy, dx, d).contains(
                (
                    if vertical {
                        2 * cx - a
                    } else {
                        a
                    },
                    if vertical {
                        b
                    } else {
                        2 * cy - b
                    },
                ),
            ),
    decreases max(x + 1 - y, 0),
{
    let s = circle_pts_rec(cx, cy, x, y, dy, dx, d);
    if y > x {
        assert(forall|a: int, b: int| !s.contains((a, b)));
    } else {
        let d1 = d + dy;
        let rest = if d1 < 0 {
            circle_pts_rec(cx, cy, x - 1, y + 1, dy - 4, dx - 4, d1 + dx)
        } else {
            circle_pts_rec(cx, cy, x, y + 1, dy - 4, dx, d1)
        };
        if d1 < 0 {
            lemma_circle_rec_mirror(cx, cy, x - 1, y + 1, dy - 4, dx - 4, d1 + dx, vertical);
        } else {
            lemma_circle_rec_mirror(cx, cy, x, y + 1, dy - 4, dx, d1, vertical);
        }
        assert forall|a: int, b: int| #[trigger] s.contains((a, b)) implies s.contains(
            (
                if vertical {
                    2 * cx - a
                } else {
                    a
                },
                if vertical {
                    b
                } else {
                    2 * cy - b
                },
            ),
        ) by {
            let m = (
                if vertical {
                    2 * cx - a
                } else {
                    a
                },
                if vertical {
                    b
                } else {
                    2 * cy - b
                },
            );
            let i = choose|i: int| 0 <= i < s.len() && s[i] == (a, b);
            if i < 8 {
                let j: int = if vertical {
                    if i % 2 == 0 {
                        i + 1
                    } else {
                        i - 1
                    }
                } else {
                    if i % 4 < 2 {
                        i + 2
                    } else {
                        i - 2
                    }
                };
                assert(s[j] == m);
                assert(s.contains(m));
            } else {
                assert(s[i] == rest[i - 8]);
                assert(rest.contains((a, b)));
                assert(rest.contains(m));
                let k = choose|k: int| 0 <= k < rest.len() && rest[k] == m;
                assert(s[k + 8] == m);
                assert(s.contains(m));
            }
        }
    }
}

} // verus!
