//! Point-set descriptions of the rasterization primitives.
//!
//! Each drawing routine on the canvas is specified against a mathematical
//! set of grid points defined here: the Bresenham line walk, the midpoint
//! circle walk, and the scanline spans of a filled triangle.

use vstd::prelude::*;

verus! {

/// Absolute value of a mathematical integer.
pub open spec fn abs_int(a: int) -> int {
    if a >= 0 {
        a
    } else {
        -a
    }
}

/// One step of the x-major Bresenham walk: the new y and error term.
pub open spec fn x_major_step(y: int, px: int, ystep: int, dx1: int, dy1: int) -> (int, int) {
    if px < 0 {
        (y, px + 2 * dy1)
    } else {
        (y + ystep, px + 2 * (dy1 - dx1))
    }
}

/// The points visited by an x-major Bresenham walk that starts at (x, y)
/// with error term `px` and takes `n` more unit steps in x.
pub open spec fn x_major_pts(
    x: int,
    y: int,
    px: int,
    n: nat,
    dx1: int,
    dy1: int,
    ystep: int,
) -> Set<(int, int)>
    decreases n,
{
    if n == 0 {
        set![(x, y)]
    } else {
        let s = x_major_step(y, px, ystep, dx1, dy1);
        set![(x, y)].union(x_major_pts(x + 1, s.0, s.1, (n - 1) as nat, dx1, dy1, ystep))
    }
}

/// One step of the y-major Bresenham walk: the new x and error term.
pub open spec fn y_major_step(x: int, py: int, xstep: int, dy1: int, dx1: int) -> (int, int) {
    if py <= 0 {
        (x, py + 2 * dx1)
    } else {
        (x + xstep, py + 2 * (dx1 - dy1))
    }
}

/// The points visited by a y-major Bresenham walk that starts at (x, y)
/// with error term `py` and takes `n` more unit steps in y.
pub open spec fn y_major_pts(
    x: int,
    y: int,
    py: int,
    n: nat,
    dy1: int,
    dx1: int,
    xstep: int,
) -> Set<(int, int)>
    decreases n,
{
    if n == 0 {
        set![(x, y)]
    } else {
        let s = y_major_step(x, py, xstep, dy1, dx1);
        set![(x, y)].union(y_major_pts(s.0, y + 1, s.1, (n - 1) as nat, dy1, dx1, xstep))
    }
}

/// The diagonal step direction of the walk: +1 when the endpoint deltas
/// share a sign, else -1.
pub open spec fn line_diag_step(dx: int, dy: int) -> int {
    if (dx < 0 && dy < 0) || (dx > 0 && dy > 0) {
        1
    } else {
        -1
    }
}

/// The set of grid points of the Bresenham line between (x1, y1) and
/// (x2, y2).  The walk always proceeds along the major axis in its
/// increasing direction, starting from whichever endpoint lies first, so
/// the set does not depend on the order of the endpoints.
pub open spec fn line_pts(x1: int, y1: int, x2: int, y2: int) -> Set<(int, int)> {
    let dx = x2 - x1;
    let dy = y2 - y1;
    let dx1 = abs_int(dx);
    let dy1 = abs_int(dy);
    if dy1 <= dx1 {
        if dx >= 0 {
            x_major_pts(x1, y1, 2 * dy1 - dx1, dx1 as nat, dx1, dy1, line_diag_step(dx, dy))
        } else {
            x_major_pts(x2, y2, 2 * dy1 - dx1, dx1 as nat, dx1, dy1, line_diag_step(dx, dy))
        }
    } else {
        if dy >= 0 {
            y_major_pts(x1, y1, 2 * dx1 - dy1, dy1 as nat, dy1, dx1, line_diag_step(dx, dy))
        } else {
            y_major_pts(x2, y2, 2 * dx1 - dy1, dy1 as nat, dy1, dx1, line_diag_step(dx, dy))
        }
    }
}

/// Whether the point set holds some point in column cx.
pub open spec fn column_hit(s: Set<(int, int)>, cx: int) -> bool {
    exists|q: (int, int)| #[trigger] s.contains(q) && q.0 == cx
}

/// Whether the point set holds some point in row cy.
pub open spec fn row_hit(s: Set<(int, int)>, cy: int) -> bool {
    exists|q: (int, int)| #[trigger] s.contains(q) && q.1 == cy
}

/// An x-major walk visits every column of its range.
proof fn lemma_x_major_pts_covers(x: int, y: int, px: int, n: nat, dx1: int, dy1: int, ystep: int)
    ensures
        forall|cx: int|
            x <= cx <= x + n ==> #[trigger] column_hit(
                x_major_pts(x, y, px, n, dx1, dy1, ystep),
                cx,
            ),
    decreases n,
{
    let full = x_major_pts(x, y, px, n, dx1, dy1, ystep);
    assert(full.contains((x, y)));
    if n > 0 {
        let s = x_major_step(y, px, ystep, dx1, dy1);
        lemma_x_major_pts_covers(x + 1, s.0, s.1, (n - 1) as nat, dx1, dy1, ystep);
        assert forall|cx: int| x <= cx <= x + n implies #[trigger] column_hit(full, cx) by {
            if cx == x {
                assert(full.contains((x, y)) && (x, y).0 == cx);
            } else {
                assert(column_hit(x_major_pts(x + 1, s.0, s.1, (n - 1) as nat, dx1, dy1, ystep), cx));
                let q = choose|q: (int, int)|
                    #[trigger] x_major_pts(x + 1, s.0, s.1, (n - 1) as nat, dx1, dy1, ystep)
                        .contains(q) && q.0 == cx;
                assert(full.contains(q));
            }
        }
    }
}

/// An x-major walk leaves no gap: every visited point short of the last
/// column has a visited neighbour in the next column at most one row
/// away, so the walked line is 8-connected.
proof fn lemma_x_major_pts_connected(
    x: int,
    y: int,
    px: int,
    n: nat,
    dx1: int,
    dy1: int,
    ystep: int,
)
    requires
        -1 <= ystep <= 1,
    ensures
        forall|q: (int, int)|
            #[trigger] x_major_pts(x, y, px, n, dx1, dy1, ystep).contains(q) && q.0 < x + n
                ==> exists|q2: (int, int)|
                #[trigger] x_major_pts(x, y, px, n, dx1, dy1, ystep).contains(q2) && q2.0 == q.0 + 1
                    && abs_int(q2.1 - q.1) <= 1,
    decreases n,
{
    let full = x_major_pts(x, y, px, n, dx1, dy1, ystep);
    if n > 0 {
        let s = x_major_step(y, px, ystep, dx1, dy1);
        let tail = x_major_pts(x + 1, s.0, s.1, (n - 1) as nat, dx1, dy1, ystep);
        lemma_x_major_pts_connected(x + 1, s.0, s.1, (n - 1) as nat, dx1, dy1, ystep);
        assert forall|q: (int, int)| #[trigger] full.contains(q) && q.0 < x + n implies exists|
            q2: (int, int),
        | #[trigger] full.contains(q2) && q2.0 == q.0 + 1 && abs_int(q2.1 - q.1) <= 1 by {
            if q == (x, y) {
                assert(tail.contains((x + 1, s.0)));
                assert(full.contains((x + 1, s.0)));
                assert(abs_int(s.0 - y) <= 1);
            } else {
                assert(tail.contains(q));
                let q2 = choose|q2: (int, int)|
                    #[trigger] tail.contains(q2) && q2.0 == q.0 + 1 && abs_int(q2.1 - q.1) <= 1;
                assert(full.contains(q2));
            }
        }
    }
}

/// A y-major walk visits every row of its range.
proof fn lemma_y_major_pts_covers(x: int, y: int, py: int, n: nat, dy1: int, dx1: int, xstep: int)
    ensures
        forall|cy: int|
            y <= cy <= y + n ==> #[trigger] row_hit(y_major_pts(x, y, py, n, dy1, dx1, xstep), cy),
    decreases n,
{
    let full = y_major_pts(x, y, py, n, dy1, dx1, xstep);
    assert(full.contains((x, y)));
    if n > 0 {
        let s = y_major_step(x, py, xstep, dy1, dx1);
        lemma_y_major_pts_covers(s.0, y + 1, s.1, (n - 1) as nat, dy1, dx1, xstep);
        assert forall|cy: int| y <= cy <= y + n implies #[trigger] row_hit(full, cy) by {
            if cy == y {
                assert(full.contains((x, y)) && (x, y).1 == cy);
            } else {
                assert(row_hit(y_major_pts(s.0, y + 1, s.1, (n - 1) as nat, dy1, dx1, xstep), cy));
                let q = choose|q: (int, int)|
                    #[trigger] y_major_pts(s.0, y + 1, s.1, (n - 1) as nat, dy1, dx1, xstep)
                        .contains(q) && q.1 == cy;
                assert(full.contains(q));
            }
        }
    }
}

/// A y-major walk leaves no gap: every visited point short of the last
/// row has a visited neighbour in the next row at most one column away.
proof fn lemma_y_major_pts_connected(
    x: int,
    y: int,
    py: int,
    n: nat,
    dy1: int,
    dx1: int,
    xstep: int,
)
    requires
        -1 <= xstep <= 1,
    ensures
        forall|q: (int, int)|
            #[trigger] y_major_pts(x, y, py, n, dy1, dx1, xstep).contains(q) && q.1 < y + n
                ==> exists|q2: (int, int)|
                #[trigger] y_major_pts(x, y, py, n, dy1, dx1, xstep).contains(q2) && q2.1 == q.1 + 1
                    && abs_int(q2.0 - q.0) <= 1,
    decreases n,
{
    let full = y_major_pts(x, y, py, n, dy1, dx1, xstep);
    if n > 0 {
        let s = y_major_step(x, py, xstep, dy1, dx1);
        let tail = y_major_pts(s.0, y + 1, s.1, (n - 1) as nat, dy1, dx1, xstep);
        lemma_y_major_pts_connected(s.0, y + 1, s.1, (n - 1) as nat, dy1, dx1, xstep);
        assert forall|q: (int, int)| #[trigger] full.contains(q) && q.1 < y + n implies exists|
            q2: (int, int),
        | #[trigger] full.contains(q2) && q2.1 == q.1 + 1 && abs_int(q2.0 - q.0) <= 1 by {
            if q == (x, y) {
                assert(tail.contains((s.0, y + 1)));
                assert(full.contains((s.0, y + 1)));
                assert(abs_int(s.0 - x) <= 1);
            } else {
                assert(tail.contains(q));
                let q2 = choose|q2: (int, int)|
                    #[trigger] tail.contains(q2) && q2.1 == q.1 + 1 && abs_int(q2.0 - q.0) <= 1;
                assert(full.contains(q2));
            }
        }
    }
}

/// A line has no gaps: along its major axis it visits every coordinate
/// between its endpoints, and each visited point has an 8-adjacent
/// visited point one step further along, so the walked cells form an
/// 8-connected line.
pub proof fn lemma_line_pts_connected(x1: int, y1: int, x2: int, y2: int)
    ensures
        abs_int(y2 - y1) <= abs_int(x2 - x1) ==> {
            let full = line_pts(x1, y1, x2, y2);
            let lo = if x1 <= x2 {
                x1
            } else {
                x2
            };
            let hi = if x1 <= x2 {
                x2
            } else {
                x1
            };
            &&& forall|cx: int| lo <= cx <= hi ==> #[trigger] column_hit(full, cx)
            &&& forall|q: (int, int)|
                #[trigger] full.contains(q) && q.0 < hi ==> exists|q2: (int, int)|
                    #[trigger] full.contains(q2) && q2.0 == q.0 + 1 && abs_int(q2.1 - q.1) <= 1
        },
        abs_int(y2 - y1) > abs_int(x2 - x1) ==> {
            let full = line_pts(x1, y1, x2, y2);
            let lo = if y1 <= y2 {
                y1
            } else {
                y2
            };
            let hi = if y1 <= y2 {
                y2
            } else {
                y1
            };
            &&& forall|cy: int| lo <= cy <= hi ==> #[trigger] row_hit(full, cy)
            &&& forall|q: (int, int)|
                #[trigger] full.contains(q) && q.1 < hi ==> exists|q2: (int, int)|
                    #[trigger] full.contains(q2) && q2.1 == q.1 + 1 && abs_int(q2.0 - q.0) <= 1
        },
{
    let dx = x2 - x1;
    let dy = y2 - y1;
    let dx1 = abs_int(dx);
    let dy1 = abs_int(dy);
    let step = line_diag_step(dx, dy);
    if dy1 <= dx1 {
        if dx >= 0 {
            lemma_x_major_pts_covers(x1, y1, 2 * dy1 - dx1, dx1 as nat, dx1, dy1, step);
            lemma_x_major_pts_connected(x1, y1, 2 * dy1 - dx1, dx1 as nat, dx1, dy1, step);
        } else {
            lemma_x_major_pts_covers(x2, y2, 2 * dy1 - dx1, dx1 as nat, dx1, dy1, step);
            lemma_x_major_pts_connected(x2, y2, 2 * dy1 - dx1, dx1 as nat, dx1, dy1, step);
        }
    } else {
        if dy >= 0 {
            lemma_y_major_pts_covers(x1, y1, 2 * dx1 - dy1, dy1 as nat, dy1, dx1, step);
            lemma_y_major_pts_connected(x1, y1, 2 * dx1 - dy1, dy1 as nat, dy1, dx1, step);
        } else {
            lemma_y_major_pts_covers(x2, y2, 2 * dx1 - dy1, dy1 as nat, dy1, dx1, step);
            lemma_y_major_pts_connected(x2, y2, 2 * dx1 - dy1, dy1 as nat, dy1, dx1, step);
        }
    }
}

/// The eight symmetric outline points the midpoint circle walk paints for
/// the offset pair (x, y) around the centre (xc, yc).
pub open spec fn octant_pts(xc: int, yc: int, x: int, y: int) -> Set<(int, int)> {
    set![
        (xc - x, yc - y),
        (xc - y, yc - x),
        (xc + y, yc - x),
        (xc + x, yc - y),
        (xc - x, yc + y),
        (xc - y, yc + x),
        (xc + y, yc + x),
        (xc + x, yc + y),
    ]
}

/// Points painted by the midpoint circle walk from offset (x, y) with
/// decision term p, until the octant is exhausted.
pub open spec fn circle_walk_pts(xc: int, yc: int, x: int, y: int, p: int) -> Set<(int, int)>
    decreases (if x <= y {
        y - x + 1
    } else {
        0
    }),
{
    if y < x {
        Set::empty()
    } else {
        let nxt = if p < 0 {
            circle_walk_pts(xc, yc, x + 1, y, p + 4 * x + 6)
        } else {
            circle_walk_pts(xc, yc, x + 1, y - 1, p + 4 * (x - y) + 10)
        };
        octant_pts(xc, yc, x, y).union(nxt)
    }
}

/// The outline cells of the circle with centre (xc, yc) and radius r.
/// A radius-0 circle paints nothing.
pub open spec fn circle_outline_pts(xc: int, yc: int, r: int) -> Set<(int, int)> {
    if r == 0 {
        Set::empty()
    } else {
        circle_walk_pts(xc, yc, 0, r, 3 - 2 * r)
    }
}

/// The horizontal run of cells at height y with x from lo to hi inclusive.
pub open spec fn row_pts(y: int, lo: int, hi: int) -> Set<(int, int)> {
    Set::new(|q: (int, int)| q.1 == y && lo <= q.0 <= hi)
}

/// The four horizontal runs the filled-circle walk paints for the offset
/// pair (x, y) around the centre (xc, yc).
pub open spec fn disk_rows(xc: int, yc: int, x: int, y: int) -> Set<(int, int)> {
    row_pts(yc - y, xc - x, xc + x).union(row_pts(yc - x, xc - y, xc + y)).union(
        row_pts(yc + y, xc - x, xc + x),
    ).union(row_pts(yc + x, xc - y, xc + y))
}

/// Points painted by the filled-circle walk from offset (x, y) with
/// decision term p, until the octant is exhausted.
pub open spec fn disk_walk_pts(xc: int, yc: int, x: int, y: int, p: int) -> Set<(int, int)>
    decreases (if x <= y {
        y - x + 1
    } else {
        0
    }),
{
    if y < x {
        Set::empty()
    } else {
        let nxt = if p < 0 {
            disk_walk_pts(xc, yc, x + 1, y, p + 4 * x + 6)
        } else {
            disk_walk_pts(xc, yc, x + 1, y - 1, p + 4 * (x - y) + 10)
        };
        disk_rows(xc, yc, x, y).union(nxt)
    }
}

/// The cells of the filled circle with centre (xc, yc) and radius r.
/// A radius-0 circle paints nothing.
pub open spec fn circle_fill_pts(xc: int, yc: int, r: int) -> Set<(int, int)> {
    if r == 0 {
        Set::empty()
    } else {
        disk_walk_pts(xc, yc, 0, r, 3 - 2 * r)
    }
}

/// The x position of the edge from (x0, y0) to (xe, ye) at scanline y:
/// linear interpolation with the fractional part rounded toward x0.
/// Meaningful for y0 <= y <= ye with y0 < ye.
pub open spec fn edge_x_at(x0: int, y0: int, xe: int, ye: int, y: int) -> int {
    if xe >= x0 {
        x0 + (xe - x0) * (y - y0) / (ye - y0)
    } else {
        x0 - (x0 - xe) * (y - y0) / (ye - y0)
    }
}

/// The three triangle vertices ordered by ascending y, equal heights
/// keeping their given order: the order the scanline fill walks them in.
pub open spec fn tri_sort(x1: int, y1: int, x2: int, y2: int, x3: int, y3: int) -> (
    int,
    int,
    int,
    int,
    int,
    int,
) {
    let a = if y1 > y2 {
        (x2, y2, x1, y1, x3, y3)
    } else {
        (x1, y1, x2, y2, x3, y3)
    };
    let b = if a.1 > a.5 {
        (a.4, a.5, a.2, a.3, a.0, a.1)
    } else {
        a
    };
    if b.3 > b.5 {
        (b.0, b.1, b.4, b.5, b.2, b.3)
    } else {
        b
    }
}

/// The inclusive horizontal span the scanline fill paints at height py,
/// for vertices already sorted by y: the run between the long edge a-z
/// and whichever short edge (a-m or m-z) crosses that scanline.  A fully
/// flat triangle paints the run between its leftmost and rightmost
/// vertices.
pub open spec fn tri_span(ax: int, ay: int, mx: int, my: int, zx: int, zy: int, py: int) -> (
    int,
    int,
) {
    if ay == zy {
        let lo0 = if ax <= mx {
            ax
        } else {
            mx
        };
        let hi0 = if ax >= mx {
            ax
        } else {
            mx
        };
        (
            if lo0 <= zx {
                lo0
            } else {
                zx
            },
            if hi0 >= zx {
                hi0
            } else {
                zx
            },
        )
    } else {
        let xa = edge_x_at(ax, ay, zx, zy, py);
        let xb = if py < my {
            edge_x_at(ax, ay, mx, my, py)
        } else if py > my {
            edge_x_at(mx, my, zx, zy, py)
        } else {
            mx
        };
        (
            if xa <= xb {
                xa
            } else {
                xb
            },
            if xa <= xb {
                xb
            } else {
                xa
            },
        )
    }
}

/// Whether the scanline fill of the triangle with the given vertices
/// paints the grid point (px, py).
pub open spec fn tri_fill_contains(
    x1: int,
    y1: int,
    x2: int,
    y2: int,
    x3: int,
    y3: int,
    px: int,
    py: int,
) -> bool {
    let s = tri_sort(x1, y1, x2, y2, x3, y3);
    let sp = tri_span(s.0, s.1, s.2, s.3, s.4, s.5, py);
    s.1 <= py <= s.5 && sp.0 <= px <= sp.1
}

/// A triangle whose three vertices coincide covers exactly that one grid
/// point, so filling it writes at most one cell: the vertex, and only
/// when it lies on the grid.
pub proof fn lemma_degenerate_triangle_point(x: int, y: int, px: int, py: int)
    ensures
        tri_fill_contains(x, y, x, y, x, y, px, py) <==> (px == x && py == y),
{
}

/// A line is direction-symmetric: the walk from a to b visits exactly the
/// grid points of the walk from b to a, so `draw_line` writes the same
/// set of cells whichever way round its endpoints are given.
pub proof fn lemma_line_pts_symmetric(x1: int, y1: int, x2: int, y2: int)
    ensures
        line_pts(x1, y1, x2, y2) == line_pts(x2, y2, x1, y1),
{
    let dx = x2 - x1;
    let dy = y2 - y1;
    assert(line_diag_step(dx, dy) == line_diag_step(-dx, -dy));
    if abs_int(dy) <= abs_int(dx) && dx == 0 {
        assert(x1 == x2 && y1 == y2);
    }
}

} // verus!
