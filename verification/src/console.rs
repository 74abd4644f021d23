//! The frame buffer and its drawing primitives, plus the per-key input
//! state tracker.

use vstd::prelude::*;

use crate::KeyState;
use crate::sprite::RustConsoleSprite;
use crate::sprite::SpriteView;
use vstd::string::StrSliceExecFns;
use crate::raster::circle_fill_pts;
use crate::raster::circle_outline_pts;
use crate::raster::circle_walk_pts;
use crate::raster::disk_rows;
use crate::raster::disk_walk_pts;
use crate::raster::edge_x_at;
use crate::raster::line_pts;
use crate::raster::tri_fill_contains;
use crate::raster::tri_sort;
use crate::raster::tri_span;
use crate::raster::octant_pts;
use crate::raster::row_pts;
use crate::raster::x_major_pts;
use crate::raster::y_major_pts;

verus! {

/// One cell of the frame buffer: a display glyph and a packed
/// foreground/background colour attribute.
#[derive(Clone, Copy, PartialEq, Eq, Structural, Debug)]
pub struct Cell {
    pub glyph: char,
    pub color: u16,
}

/// The cell every grid position is reset to: a space glyph with a zero
/// attribute.
pub open spec fn blank_cell() -> Cell {
    Cell { glyph: ' ', color: 0 }
}

/// Mathematical contents of a console: dimensions, advisory font metrics,
/// the row-major cell grid, and the input tracker's state.
pub ghost struct ConsoleView {
    pub width: nat,
    pub height: nat,
    pub font_width: int,
    pub font_height: int,
    pub cells: Seq<Cell>,
    pub keys: Seq<KeyState>,
    pub prev_down: Seq<bool>,
}

impl ConsoleView {
    /// The grid holds exactly `width * height` cells, both dimensions are
    /// positive, and the input tracker covers the 256 key codes.
    pub open spec fn wf(self) -> bool {
        &&& self.width > 0
        &&& self.height > 0
        &&& self.cells.len() == self.width * self.height
        &&& self.keys.len() == 256
        &&& self.prev_down.len() == 256
    }

    /// Whether (x, y) addresses a cell of the grid.
    pub open spec fn in_bounds(self, x: int, y: int) -> bool {
        0 <= x < self.width && 0 <= y < self.height
    }

    /// The cell at (x, y), row-major.
    pub open spec fn cell_at(self, x: int, y: int) -> Cell {
        self.cells[y * self.width + x]
    }

    /// What every drawing primitive leaves untouched: the dimensions, the
    /// font metrics, the key state, and the number of cells.
    pub open spec fn same_frame(self, other: ConsoleView) -> bool {
        &&& other.width == self.width
        &&& other.height == self.height
        &&& other.font_width == self.font_width
        &&& other.font_height == self.font_height
        &&& other.keys == self.keys
        &&& other.prev_down == self.prev_down
        &&& other.cells.len() == self.cells.len()
    }
}

/// A row-major index stays inside a `w`-by-`h` grid.
proof fn lemma_grid_index_bounds(w: int, h: int, x: int, y: int)
    requires
        0 <= x < w,
        0 <= y < h,
    ensures
        0 <= y * w + x < w * h,
{
    assert(0 <= y * w + x < w * h) by (nonlinear_arith)
        requires
            0 <= x < w,
            0 <= y < h,
    ;
}

/// Distinct in-bounds grid positions have distinct row-major indices.
proof fn lemma_grid_index_injective(w: int, x1: int, y1: int, x2: int, y2: int)
    requires
        0 <= x1 < w,
        0 <= x2 < w,
        0 <= y1,
        0 <= y2,
        y1 * w + x1 == y2 * w + x2,
    ensures
        x1 == x2 && y1 == y2,
{
    assert(x1 == x2 && y1 == y2) by (nonlinear_arith)
        requires
            0 <= x1 < w,
            0 <= x2 < w,
            0 <= y1,
            0 <= y2,
            y1 * w + x1 == y2 * w + x2,
    ;
}

/// A vector of `n` copies of one value.
fn filled<T: Copy>(n: usize, val: T) -> (v: Vec<T>)
    ensures
        v@.len() == n,
        forall|i: int| 0 <= i < n ==> v@[i] == val,
{
    let mut v: Vec<T> = Vec::new();
    let mut i: usize = 0;
    while i < n
        invariant
            i <= n,
            v@.len() == i,
            forall|j: int| 0 <= j < i ==> v@[j] == val,
        decreases n - i,
    {
        v.push(val);
        i = i + 1;
    }
    v
}

/// The resizable frame buffer of glyph/colour cells together with the
/// per-key input tracker.  All drawing primitives are total: coordinates
/// outside the grid are silently ignored, never a fault.
pub struct RustConsole {
    width: usize,
    height: usize,
    font_width: i16,
    font_height: i16,
    screen: Vec<Cell>,
    keys: Vec<KeyState>,
    prev_down: Vec<bool>,
}

impl View for RustConsole {
    type V = ConsoleView;

    closed spec fn view(&self) -> ConsoleView {
        ConsoleView {
            width: self.width as nat,
            height: self.height as nat,
            font_width: self.font_width as int,
            font_height: self.font_height as int,
            cells: self.screen@,
            keys: self.keys@,
            prev_down: self.prev_down@,
        }
    }
}

impl RustConsole {
    pub const FG_BLACK: u16 = 0x0000;

    pub const FG_DARK_BLUE: u16 = 0x0001;

    pub const FG_DARK_GREEN: u16 = 0x0002;

    pub const FG_DARK_CYAN: u16 = 0x0003;

    pub const FG_DARK_RED: u16 = 0x0004;

    pub const FG_DARK_MAGENTA: u16 = 0x0005;

    pub const FG_DARK_YELLOW: u16 = 0x0006;

    pub const FG_GREY: u16 = 0x0007;

    pub const FG_DARK_GREY: u16 = 0x0008;

    pub const FG_BLUE: u16 = 0x0009;

    pub const FG_GREEN: u16 = 0x000a;

    pub const FG_CYAN: u16 = 0x000b;

    pub const FG_RED: u16 = 0x000c;

    pub const FG_MAGENTA: u16 = 0x000d;

    pub const FG_YELLOW: u16 = 0x000e;

    pub const FG_WHITE: u16 = 0x000f;

    pub const BG_BLACK: u16 = 0x0000;

    pub const BG_DARK_BLUE: u16 = 0x0010;

    pub const BG_DARK_GREEN: u16 = 0x0020;

    pub const BG_DARK_CYAN: u16 = 0x0030;

    pub const BG_DARK_RED: u16 = 0x0040;

    pub const BG_DARK_MAGENTA: u16 = 0x0050;

    pub const BG_DARK_YELLOW: u16 = 0x0060;

    pub const BG_GREY: u16 = 0x0070;

    pub const BG_DARK_GREY: u16 = 0x0080;

    pub const BG_BLUE: u16 = 0x0090;

    pub const BG_GREEN: u16 = 0x00a0;

    pub const BG_CYAN: u16 = 0x00b0;

    pub const BG_RED: u16 = 0x00c0;

    pub const BG_MAGENTA: u16 = 0x00d0;

    pub const BG_YELLOW: u16 = 0x00e0;

    pub const BG_WHITE: u16 = 0x00f0;

    pub const PIXEL_SOLID: char = '\u{2588}';

    pub const PIXEL_THREEQUARTER: char = '\u{2593}';

    pub const PIXEL_HALF: char = '\u{2592}';

    pub const PIXEL_QUARTER: char = '\u{2591}';

    pub const VK_UP: u32 = 38u32;

    pub const VK_DOWN: u32 = 40u32;

    pub const VK_LEFT: u32 = 37u32;

    pub const VK_RIGHT: u32 = 39u32;

    /// A fresh console: a blank `width`-by-`height` grid, the given
    /// advisory font metrics, and an input tracker with every key up.
    pub fn new(width: usize, height: usize, font_width: i16, font_height: i16) -> (c:
        RustConsole)
        requires
            width >= 1,
            height >= 1,
            width * height <= usize::MAX,
        ensures
            c@.wf(),
            c@.width == width,
            c@.height == height,
            c@.font_width == font_width,
            c@.font_height == font_height,
            forall|i: int| 0 <= i < c@.cells.len() ==> c@.cells[i] == blank_cell(),
            forall|k: int|
                0 <= k < 256 ==> c@.keys[k] == (KeyState {
                    pressed: false,
                    released: false,
                    held: false,
                }),
            forall|k: int| 0 <= k < 256 ==> c@.prev_down[k] == false,
    {
        let n = width * height;
        RustConsole {
            width,
            height,
            font_width,
            font_height,
            screen: filled(n, Cell { glyph: ' ', color: 0 }),
            keys: filled(256, KeyState { pressed: false, released: false, held: false }),
            prev_down: filled(256, false),
        }
    }

    /// Current grid width in cells.
    pub fn width(&self) -> (w: usize)
        ensures
            w == self@.width,
    {
        self.width
    }

    /// Current grid height in cells.
    pub fn height(&self) -> (h: usize)
        ensures
            h == self@.height,
    {
        self.height
    }

    /// Advisory font cell width, as last recorded.
    pub fn font_width(&self) -> (w: i16)
        ensures
            w == self@.font_width,
    {
        self.font_width
    }

    /// Advisory font cell height, as last recorded.
    pub fn font_height(&self) -> (h: i16)
        ensures
            h == self@.font_height,
    {
        self.font_height
    }

    /// The edge-detected state of key `v_key`, by value.
    pub fn key(&self, v_key: usize) -> (k: KeyState)
        requires
            self@.wf(),
            v_key < 256,
        ensures
            k == self@.keys[v_key as int],
    {
        self.keys[v_key]
    }

    /// The cell at (x, y), by value; out-of-range reads yield the blank
    /// cell.
    pub fn cell(&self, x: usize, y: usize) -> (r: Cell)
        requires
            self@.wf(),
        ensures
            r == (if self@.in_bounds(x as int, y as int) {
                self@.cell_at(x as int, y as int)
            } else {
                blank_cell()
            }),
    {
        if x < self.width && y < self.height {
            let n = self.screen.len();
            proof {
                lemma_grid_index_bounds(self.width as int, self.height as int, x as int, y as int);
            }
            assert(y * self.width + x < n);
            self.screen[y * self.width + x]
        } else {
            Cell { glyph: ' ', color: 0 }
        }
    }

    /// Window titles are a backend concern; the core keeps no title state.
    pub fn set_title(&self, _title: String) {
    }

    /// Writes one cell iff (x, y) lies on the grid; out-of-range writes
    /// are silent no-ops, the single bounds check every other primitive
    /// relies on.
    pub fn draw(&mut self, x: usize, y: usize, c: char, col: u16)
        requires
            old(self)@.wf(),
        ensures
            final(self)@.wf(),
            old(self)@.same_frame(final(self)@),
            forall|px: int, py: int|
                old(self)@.in_bounds(px, py) ==> final(self)@.cell_at(px, py) == (if px == x && py
                    == y {
                    (Cell { glyph: c, color: col })
                } else {
                    old(self)@.cell_at(px, py)
                }),
            !old(self)@.in_bounds(x as int, y as int) ==> final(self)@ == old(self)@,
    {
        if x < self.width && y < self.height {
            let n = self.screen.len();
            proof {
                lemma_grid_index_bounds(self.width as int, self.height as int, x as int, y as int);
            }
            assert(y * self.width + x < n);
            let idx = y * self.width + x;
            self.screen.set(idx, Cell { glyph: c, color: col });
            proof {
                let w = self@.width as int;
                let h = self@.height as int;
                assert forall|px: int, py: int|
                    old(self)@.in_bounds(px, py) implies self@.cell_at(px, py) == (if px == x && py
                    == y {
                    (Cell { glyph: c, color: col })
                } else {
                    old(self)@.cell_at(px, py)
                }) by {
                    lemma_grid_index_bounds(w, h, px, py);
                    if py * w + px == y * w + x {
                        lemma_grid_index_injective(w, px, py, x as int, y as int);
                    }
                }
            }
        }
    }

    /// `draw` over signed coordinates: positions off the grid on any
    /// side, negative ones included, are silently ignored.
    fn draw_i(&mut self, x: i128, y: i128, c: char, col: u16)
        requires
            old(self)@.wf(),
        ensures
            final(self)@.wf(),
            old(self)@.same_frame(final(self)@),
            forall|px: int, py: int|
                old(self)@.in_bounds(px, py) ==> final(self)@.cell_at(px, py) == (if px == x && py
                    == y {
                    (Cell { glyph: c, color: col })
                } else {
                    old(self)@.cell_at(px, py)
                }),
    {
        if 0 <= x && 0 <= y && x < self.width as i128 && y < self.height as i128 {
            self.draw(x as usize, y as usize, c, col);
        }
    }

    /// Bresenham's integer line from (x1, y1) to (x2, y2): an 8-connected
    /// line with no gaps, the same set of cells in either direction,
    /// clipped to the grid.
    #[verifier::loop_isolation(false)]
    #[verifier::rlimit(80)]
    pub fn draw_line(&mut self, x1: usize, y1: usize, x2: usize, y2: usize, c: char, col: u16)
        requires
            old(self)@.wf(),
        ensures
            final(self)@.wf(),
            old(self)@.same_frame(final(self)@),
            forall|px: int, py: int|
                old(self)@.in_bounds(px, py) ==> final(self)@.cell_at(px, py) == (if line_pts(
                    x1 as int,
                    y1 as int,
                    x2 as int,
                    y2 as int,
                ).contains((px, py)) {
                    (Cell { glyph: c, color: col })
                } else {
                    old(self)@.cell_at(px, py)
                }),
    {
        let gx1 = x1 as i128;
        let gy1 = y1 as i128;
        let gx2 = x2 as i128;
        let gy2 = y2 as i128;
        let dx = gx2 - gx1;
        let dy = gy2 - gy1;
        let dx1 = if dx < 0 {
            -dx
        } else {
            dx
        };
        let dy1 = if dy < 0 {
            -dy
        } else {
            dy
        };
        let ghost full = line_pts(x1 as int, y1 as int, x2 as int, y2 as int);
        if dy1 <= dx1 {
            let mut px = 2 * dy1 - dx1;
            let sx = if dx >= 0 {
                gx1
            } else {
                gx2
            };
            let sy = if dx >= 0 {
                gy1
            } else {
                gy2
            };
            let ystep: i128 = if (dx < 0 && dy < 0) || (dx > 0 && dy > 0) {
                1
            } else {
                -1
            };
            let mut x = sx;
            let mut y = sy;
            self.draw_i(x, y, c, col);
            let ghost mut pre: Set<(int, int)> = set![(sx as int, sy as int)];
            proof {
                assert(full =~= pre.union(
                    x_major_pts(
                        x as int,
                        y as int,
                        px as int,
                        dx1 as nat,
                        dx1 as int,
                        dy1 as int,
                        ystep as int,
                    ),
                ));
            }
            let mut i: i128 = 0;
            while i < dx1
                invariant
                    0 <= i <= dx1,
                    x == sx + i,
                    sy - i <= y <= sy + i,
                    -2 * dx1 <= px <= 2 * dy1,
                    self@.wf(),
                    old(self)@.same_frame(self@),
                    pre.contains((x as int, y as int)),
                    full == pre.union(
                        x_major_pts(
                            x as int,
                            y as int,
                            px as int,
                            (dx1 - i) as nat,
                            dx1 as int,
                            dy1 as int,
                            ystep as int,
                        ),
                    ),
                    forall|qx: int, qy: int|
                        old(self)@.in_bounds(qx, qy) ==> self@.cell_at(qx, qy) == (if pre.contains(
                            (qx, qy),
                        ) {
                            (Cell { glyph: c, color: col })
                        } else {
                            old(self)@.cell_at(qx, qy)
                        }),
                decreases dx1 - i,
            {
                let ghost prev_rem = (dx1 - i) as nat;
                let ghost prev_pts = x_major_pts(
                    x as int,
                    y as int,
                    px as int,
                    prev_rem,
                    dx1 as int,
                    dy1 as int,
                    ystep as int,
                );
                let ghost old_x = x as int;
                let ghost old_y = y as int;
                x = x + 1;
                if px < 0 {
                    px = px + 2 * dy1;
                } else {
                    y = y + ystep;
                    px = px + 2 * (dy1 - dx1);
                }
                let ghost tail = x_major_pts(
                    x as int,
                    y as int,
                    px as int,
                    (prev_rem - 1) as nat,
                    dx1 as int,
                    dy1 as int,
                    ystep as int,
                );
                proof {
                    assert(prev_pts == set![(old_x, old_y)].union(tail));
                    assert(tail.contains((x as int, y as int)));
                    assert(full =~= pre.insert((x as int, y as int)).union(tail));
                }
                self.draw_i(x, y, c, col);
                proof {
                    pre = pre.insert((x as int, y as int));
                }
                i = i + 1;
            }
            proof {
                assert(x_major_pts(
                    x as int,
                    y as int,
                    px as int,
                    0nat,
                    dx1 as int,
                    dy1 as int,
                    ystep as int,
                ) == set![(x as int, y as int)]);
                assert(full =~= pre);
            }
        } else {
            let mut py = 2 * dx1 - dy1;
            let sx = if dy >= 0 {
                gx1
            } else {
                gx2
            };
            let sy = if dy >= 0 {
                gy1
            } else {
                gy2
            };
            let xstep: i128 = if (dx < 0 && dy < 0) || (dx > 0 && dy > 0) {
                1
            } else {
                -1
            };
            let mut x = sx;
            let mut y = sy;
            self.draw_i(x, y, c, col);
            let ghost mut pre: Set<(int, int)> = set![(sx as int, sy as int)];
            proof {
                assert(full =~= pre.union(
                    y_major_pts(
                        x as int,
                        y as int,
                        py as int,
                        dy1 as nat,
                        dy1 as int,
                        dx1 as int,
                        xstep as int,
                    ),
                ));
            }
            let mut i: i128 = 0;
            while i < dy1
                invariant
                    0 <= i <= dy1,
                    y == sy + i,
                    sx - i <= x <= sx + i,
                    -2 * dy1 <= py <= 2 * dx1,
                    self@.wf(),
                    old(self)@.same_frame(self@),
                    pre.contains((x as int, y as int)),
                    full == pre.union(
                        y_major_pts(
                            x as int,
                            y as int,
                            py as int,
                            (dy1 - i) as nat,
                            dy1 as int,
                            dx1 as int,
                            xstep as int,
                        ),
                    ),
                    forall|qx: int, qy: int|
                        old(self)@.in_bounds(qx, qy) ==> self@.cell_at(qx, qy) == (if pre.contains(
                            (qx, qy),
                        ) {
                            (Cell { glyph: c, color: col })
                        } else {
                            old(self)@.cell_at(qx, qy)
                        }),
                decreases dy1 - i,
            {
                let ghost prev_rem = (dy1 - i) as nat;
                let ghost prev_pts = y_major_pts(
                    x as int,
                    y as int,
                    py as int,
                    prev_rem,
                    dy1 as int,
                    dx1 as int,
                    xstep as int,
                );
                let ghost old_x = x as int;
                let ghost old_y = y as int;
                y = y + 1;
                if py <= 0 {
                    py = py + 2 * dx1;
                } else {
                    x = x + xstep;
                    py = py + 2 * (dx1 - dy1);
                }
                let ghost tail = y_major_pts(
                    x as int,
                    y as int,
                    py as int,
                    (prev_rem - 1) as nat,
                    dy1 as int,
                    dx1 as int,
                    xstep as int,
                );
                proof {
                    assert(prev_pts == set![(old_x, old_y)].union(tail));
                    assert(tail.contains((x as int, y as int)));
                    assert(full =~= pre.insert((x as int, y as int)).union(tail));
                }
                self.draw_i(x, y, c, col);
                proof {
                    pre = pre.insert((x as int, y as int));
                }
                i = i + 1;
            }
            proof {
                assert(y_major_pts(
                    x as int,
                    y as int,
                    py as int,
                    0nat,
                    dy1 as int,
                    dx1 as int,
                    xstep as int,
                ) == set![(x as int, y as int)]);
                assert(full =~= pre);
            }
        }
    }

    /// The scanline x of the edge from (x0, y0) to (xe, ye) at height y,
    /// by integer linear interpolation rounded toward x0.
    fn edge_x(x0: i128, y0: i128, xe: i128, ye: i128, y: i128) -> (r: i128)
        requires
            0 <= x0 < 0x1_0000_0000_0000_0000,
            0 <= xe < 0x1_0000_0000_0000_0000,
            y0 < ye,
            y0 <= y <= ye,
            ye - y0 < 0x1_0000_0000_0000_0000,
        ensures
            r == edge_x_at(x0 as int, y0 as int, xe as int, ye as int, y as int),
            (x0 <= r <= xe) || (xe <= r <= x0),
    {
        let dyt = (ye - y0) as u128;
        let t = (y - y0) as u128;
        if xe >= x0 {
            let dx = (xe - x0) as u128;
            proof {
                assert(dx * t <= u128::MAX) by (nonlinear_arith)
                    requires
                        0 <= dx < 0x1_0000_0000_0000_0000,
                        0 <= t < 0x1_0000_0000_0000_0000,
                ;
                assert(dx as int * t as int <= dx as int * dyt as int) by (nonlinear_arith)
                    requires
                        0 <= dx,
                        0 <= t <= dyt,
                ;
                vstd::arithmetic::div_mod::lemma_div_is_ordered(
                    dx as int * t as int,
                    dx as int * dyt as int,
                    dyt as int,
                );
                vstd::arithmetic::div_mod::lemma_div_by_multiple(dx as int, dyt as int);
            }
            let off = dx * t / dyt;
            x0 + (off as i128)
        } else {
            let dx = (x0 - xe) as u128;
            proof {
                assert(dx * t <= u128::MAX) by (nonlinear_arith)
                    requires
                        0 <= dx < 0x1_0000_0000_0000_0000,
                        0 <= t < 0x1_0000_0000_0000_0000,
                ;
                assert(dx as int * t as int <= dx as int * dyt as int) by (nonlinear_arith)
                    requires
                        0 <= dx,
                        0 <= t <= dyt,
                ;
                vstd::arithmetic::div_mod::lemma_div_is_ordered(
                    dx as int * t as int,
                    dx as int * dyt as int,
                    dyt as int,
                );
                vstd::arithmetic::div_mod::lemma_div_by_multiple(dx as int, dyt as int);
            }
            let off = dx * t / dyt;
            x0 - (off as i128)
        }
    }

    /// The closed outline of the triangle: its three edges as Bresenham
    /// lines.
    pub fn draw_triangle(
        &mut self,
        x1: usize,
        y1: usize,
        x2: usize,
        y2: usize,
        x3: usize,
        y3: usize,
        c: char,
        col: u16,
    )
        requires
            old(self)@.wf(),
        ensures
            final(self)@.wf(),
            old(self)@.same_frame(final(self)@),
            forall|px: int, py: int|
                old(self)@.in_bounds(px, py) ==> final(self)@.cell_at(px, py) == (if line_pts(
                    x1 as int,
                    y1 as int,
                    x2 as int,
                    y2 as int,
                ).contains((px, py)) || line_pts(x2 as int, y2 as int, x3 as int, y3 as int).contains(
                    (px, py),
                ) || line_pts(x3 as int, y3 as int, x1 as int, y1 as int).contains((px, py)) {
                    (Cell { glyph: c, color: col })
                } else {
                    old(self)@.cell_at(px, py)
                }),
    {
        self.draw_line(x1, y1, x2, y2, c, col);
        self.draw_line(x2, y2, x3, y3, c, col);
        self.draw_line(x3, y3, x1, y1, c, col);
    }

    /// Scanline fill of the triangle: the vertices are sorted by y, and
    /// every scanline between the top and bottom vertex paints the
    /// contiguous span between the long edge and the short edge that
    /// crosses it.  Flat and degenerate triangles fill the same way, with
    /// no row skipped or duplicated.
    #[verifier::rlimit(80)]
    pub fn fill_triangle(
        &mut self,
        x1: usize,
        y1: usize,
        x2: usize,
        y2: usize,
        x3: usize,
        y3: usize,
        c: char,
        col: u16,
    )
        requires
            old(self)@.wf(),
        ensures
            final(self)@.wf(),
            old(self)@.same_frame(final(self)@),
            forall|px: int, py: int|
                old(self)@.in_bounds(px, py) ==> final(self)@.cell_at(px, py) == (if
                    tri_fill_contains(
                    x1 as int,
                    y1 as int,
                    x2 as int,
                    y2 as int,
                    x3 as int,
                    y3 as int,
                    px,
                    py,
                ) {
                    (Cell { glyph: c, color: col })
                } else {
                    old(self)@.cell_at(px, py)
                }),
    {
        let mut ax = x1;
        let mut ay = y1;
        let mut mx = x2;
        let mut my = y2;
        let mut zx = x3;
        let mut zy = y3;
        if ay > my {
            let tx = ax;
            ax = mx;
            mx = tx;
            let ty = ay;
            ay = my;
            my = ty;
        }
        if ay > zy {
            let tx = ax;
            ax = zx;
            zx = tx;
            let ty = ay;
            ay = zy;
            zy = ty;
        }
        if my > zy {
            let tx = mx;
            mx = zx;
            zx = tx;
            let ty = my;
            my = zy;
            zy = ty;
        }
        proof {
            assert(tri_sort(x1 as int, y1 as int, x2 as int, y2 as int, x3 as int, y3 as int) == (
                ax as int,
                ay as int,
                mx as int,
                my as int,
                zx as int,
                zy as int,
            ));
        }
        if ay == zy {
            let mut lo = ax;
            let mut hi = ax;
            if mx < lo {
                lo = mx;
            }
            if mx > hi {
                hi = mx;
            }
            if zx < lo {
                lo = zx;
            }
            if zx > hi {
                hi = zx;
            }
            self.fill_row(ay as i128, lo as i128, hi as i128, c, col);
        } else {
            let mut sy = ay;
            loop
                invariant_except_break
                    old(self)@.wf(),
                    ay <= sy <= zy,
                    ay < zy,
                    ay <= my <= zy,
                    tri_sort(x1 as int, y1 as int, x2 as int, y2 as int, x3 as int, y3 as int)
                        == (ax as int, ay as int, mx as int, my as int, zx as int, zy as int),
                    self@.wf(),
                    old(self)@.same_frame(self@),
                    forall|qx: int, qy: int|
                        old(self)@.in_bounds(qx, qy) ==> self@.cell_at(qx, qy) == (if
                            tri_fill_contains(
                            x1 as int,
                            y1 as int,
                            x2 as int,
                            y2 as int,
                            x3 as int,
                            y3 as int,
                            qx,
                            qy,
                        ) && qy < sy {
                            (Cell { glyph: c, color: col })
                        } else {
                            old(self)@.cell_at(qx, qy)
                        }),
                ensures
                    self@.wf(),
                    old(self)@.same_frame(self@),
                    forall|qx: int, qy: int|
                        old(self)@.in_bounds(qx, qy) ==> self@.cell_at(qx, qy) == (if
                            tri_fill_contains(
                            x1 as int,
                            y1 as int,
                            x2 as int,
                            y2 as int,
                            x3 as int,
                            y3 as int,
                            qx,
                            qy,
                        ) {
                            (Cell { glyph: c, color: col })
                        } else {
                            old(self)@.cell_at(qx, qy)
                        }),
                decreases zy - sy,
            {
                let xa = Self::edge_x(ax as i128, ay as i128, zx as i128, zy as i128, sy as i128);
                let xb = if sy < my {
                    Self::edge_x(ax as i128, ay as i128, mx as i128, my as i128, sy as i128)
                } else if sy > my {
                    Self::edge_x(mx as i128, my as i128, zx as i128, zy as i128, sy as i128)
                } else {
                    mx as i128
                };
                let lo = if xa <= xb {
                    xa
                } else {
                    xb
                };
                let hi = if xa <= xb {
                    xb
                } else {
                    xa
                };
                proof {
                    assert(tri_span(
                        ax as int,
                        ay as int,
                        mx as int,
                        my as int,
                        zx as int,
                        zy as int,
                        sy as int,
                    ) == (lo as int, hi as int));
                }
                self.fill_row(sy as i128, lo, hi, c, col);
                if sy == zy {
                    break ;
                }
                sy = sy + 1;
            }
        }
    }

    /// Draws the horizontal run of cells from (lo, y) to (hi, y)
    /// inclusive, clipped to the grid; empty when lo > hi.
    fn fill_row(&mut self, y: i128, lo: i128, hi: i128, c: char, col: u16)
        requires
            old(self)@.wf(),
            hi < i128::MAX,
        ensures
            final(self)@.wf(),
            old(self)@.same_frame(final(self)@),
            forall|px: int, py: int|
                old(self)@.in_bounds(px, py) ==> final(self)@.cell_at(px, py) == (if row_pts(
                    y as int,
                    lo as int,
                    hi as int,
                ).contains((px, py)) {
                    (Cell { glyph: c, color: col })
                } else {
                    old(self)@.cell_at(px, py)
                }),
    {
        let mut i = lo;
        while i <= hi
            invariant
                old(self)@.wf(),
                self@.wf(),
                old(self)@.same_frame(self@),
                lo <= i,
                i <= hi + 1 || i == lo,
                hi < i128::MAX,
                forall|px: int, py: int|
                    old(self)@.in_bounds(px, py) ==> self@.cell_at(px, py) == (if py == y && lo
                        <= px < i {
                        (Cell { glyph: c, color: col })
                    } else {
                        old(self)@.cell_at(px, py)
                    }),
            decreases hi + 1 - i,
        {
            self.draw_i(i, y, c, col);
            i = i + 1;
        }
    }

    /// The midpoint-circle outline of radius r around (xc, yc), using
    /// 8-way symmetry; a radius of 0 draws nothing at all.
    #[verifier::loop_isolation(false)]
    #[verifier::rlimit(80)]
    pub fn draw_circle(&mut self, xc: usize, yc: usize, r: usize, c: char, col: u16)
        requires
            old(self)@.wf(),
        ensures
            final(self)@.wf(),
            old(self)@.same_frame(final(self)@),
            forall|px: int, py: int|
                old(self)@.in_bounds(px, py) ==> final(self)@.cell_at(px, py) == (if
                    circle_outline_pts(xc as int, yc as int, r as int).contains((px, py)) {
                    (Cell { glyph: c, color: col })
                } else {
                    old(self)@.cell_at(px, py)
                }),
            r == 0 ==> final(self)@ == old(self)@,
    {
        if r == 0 {
            return ;
        }
        let gxc = xc as i128;
        let gyc = yc as i128;
        let gr = r as i128;
        let mut x: i128 = 0;
        let mut y: i128 = gr;
        let mut p: i128 = 3 - 2 * gr;
        let ghost full = circle_outline_pts(xc as int, yc as int, r as int);
        let ghost mut pre: Set<(int, int)> = Set::empty();
        proof {
            assert(full =~= pre.union(circle_walk_pts(gxc as int, gyc as int, 0, gr as int, p as int)));
        }
        while x <= y
            invariant
                0 <= x <= y + 2,
                -1 <= y <= gr,
                -4 * gr - 20 <= p <= 3 + 4 * gr + 10 * x,
                self@.wf(),
                old(self)@.same_frame(self@),
                full == pre.union(circle_walk_pts(gxc as int, gyc as int, x as int, y as int, p as int)),
                forall|qx: int, qy: int|
                    old(self)@.in_bounds(qx, qy) ==> self@.cell_at(qx, qy) == (if pre.contains(
                        (qx, qy),
                    ) {
                        (Cell { glyph: c, color: col })
                    } else {
                        old(self)@.cell_at(qx, qy)
                    }),
            decreases (if x <= y {
                y - x + 1
            } else {
                0
            }),
        {
            let ghost walk = circle_walk_pts(gxc as int, gyc as int, x as int, y as int, p as int);
            let ghost oct = octant_pts(gxc as int, gyc as int, x as int, y as int);
            self.draw_i(gxc - x, gyc - y, c, col);
            proof {
                pre = pre.insert(((gxc - x) as int, (gyc - y) as int));
            }
            self.draw_i(gxc - y, gyc - x, c, col);
            proof {
                pre = pre.insert(((gxc - y) as int, (gyc - x) as int));
            }
            self.draw_i(gxc + y, gyc - x, c, col);
            proof {
                pre = pre.insert(((gxc + y) as int, (gyc - x) as int));
            }
            self.draw_i(gxc + x, gyc - y, c, col);
            proof {
                pre = pre.insert(((gxc + x) as int, (gyc - y) as int));
            }
            self.draw_i(gxc - x, gyc + y, c, col);
            proof {
                pre = pre.insert(((gxc - x) as int, (gyc + y) as int));
            }
            self.draw_i(gxc - y, gyc + x, c, col);
            proof {
                pre = pre.insert(((gxc - y) as int, (gyc + x) as int));
            }
            self.draw_i(gxc + y, gyc + x, c, col);
            proof {
                pre = pre.insert(((gxc + y) as int, (gyc + x) as int));
            }
            self.draw_i(gxc + x, gyc + y, c, col);
            proof {
                pre = pre.insert(((gxc + x) as int, (gyc + y) as int));
            }
            if p < 0 {
                p = p + 4 * x + 6;
                x = x + 1;
            } else {
                p = p + 4 * (x - y) + 10;
                x = x + 1;
                y = y - 1;
            }
            proof {
                assert(walk == oct.union(
                    circle_walk_pts(gxc as int, gyc as int, x as int, y as int, p as int),
                ));
                assert(full =~= pre.union(
                    circle_walk_pts(gxc as int, gyc as int, x as int, y as int, p as int),
                ));
            }
        }
        proof {
            assert(circle_walk_pts(gxc as int, gyc as int, x as int, y as int, p as int)
                == Set::<(int, int)>::empty());
            assert(full =~= pre);
        }
    }

    /// The filled midpoint circle of radius r around (xc, yc), drawn as
    /// horizontal runs between symmetric octant offsets; a radius of 0
    /// draws nothing at all.
    #[verifier::loop_isolation(false)]
    #[verifier::rlimit(80)]
    pub fn fill_circle(&mut self, xc: usize, yc: usize, r: usize, c: char, col: u16)
        requires
            old(self)@.wf(),
        ensures
            final(self)@.wf(),
            old(self)@.same_frame(final(self)@),
            forall|px: int, py: int|
                old(self)@.in_bounds(px, py) ==> final(self)@.cell_at(px, py) == (if
                    circle_fill_pts(xc as int, yc as int, r as int).contains((px, py)) {
                    (Cell { glyph: c, color: col })
                } else {
                    old(self)@.cell_at(px, py)
                }),
            r == 0 ==> final(self)@ == old(self)@,
    {
        if r == 0 {
            return ;
        }
        let gxc = xc as i128;
        let gyc = yc as i128;
        let gr = r as i128;
        let mut x: i128 = 0;
        let mut y: i128 = gr;
        let mut p: i128 = 3 - 2 * gr;
        let ghost full = circle_fill_pts(xc as int, yc as int, r as int);
        let ghost mut pre: Set<(int, int)> = Set::empty();
        proof {
            assert(full =~= pre.union(disk_walk_pts(gxc as int, gyc as int, 0, gr as int, p as int)));
        }
        while x <= y
            invariant
                0 <= x <= y + 2,
                -1 <= y <= gr,
                -4 * gr - 20 <= p <= 3 + 4 * gr + 10 * x,
                self@.wf(),
                old(self)@.same_frame(self@),
                full == pre.union(disk_walk_pts(gxc as int, gyc as int, x as int, y as int, p as int)),
                forall|qx: int, qy: int|
                    old(self)@.in_bounds(qx, qy) ==> self@.cell_at(qx, qy) == (if pre.contains(
                        (qx, qy),
                    ) {
                        (Cell { glyph: c, color: col })
                    } else {
                        old(self)@.cell_at(qx, qy)
                    }),
            decreases (if x <= y {
                y - x + 1
            } else {
                0
            }),
        {
            let ghost walk = disk_walk_pts(gxc as int, gyc as int, x as int, y as int, p as int);
            let ghost rows = disk_rows(gxc as int, gyc as int, x as int, y as int);
            self.fill_row(gyc - y, gxc - x, gxc + x, c, col);
            proof {
                pre = pre.union(row_pts((gyc - y) as int, (gxc - x) as int, (gxc + x) as int));
            }
            self.fill_row(gyc - x, gxc - y, gxc + y, c, col);
            proof {
                pre = pre.union(row_pts((gyc - x) as int, (gxc - y) as int, (gxc + y) as int));
            }
            self.fill_row(gyc + y, gxc - x, gxc + x, c, col);
            proof {
                pre = pre.union(row_pts((gyc + y) as int, (gxc - x) as int, (gxc + x) as int));
            }
            self.fill_row(gyc + x, gxc - y, gxc + y, c, col);
            proof {
                pre = pre.union(row_pts((gyc + x) as int, (gxc - y) as int, (gxc + y) as int));
            }
            if p < 0 {
                p = p + 4 * x + 6;
                x = x + 1;
            } else {
                p = p + 4 * (x - y) + 10;
                x = x + 1;
                y = y - 1;
            }
            proof {
                assert(walk == rows.union(
                    disk_walk_pts(gxc as int, gyc as int, x as int, y as int, p as int),
                ));
                assert(full =~= pre.union(
                    disk_walk_pts(gxc as int, gyc as int, x as int, y as int, p as int),
                ));
            }
        }
        proof {
            assert(disk_walk_pts(gxc as int, gyc as int, x as int, y as int, p as int)
                == Set::<(int, int)>::empty());
            assert(full =~= pre);
        }
    }

    /// Resets every cell to the blank glyph with a zero attribute.
    pub fn clear(&mut self)
        requires
            old(self)@.wf(),
        ensures
            final(self)@.wf(),
            old(self)@.same_frame(final(self)@),
            forall|i: int|
                0 <= i < final(self)@.cells.len() ==> final(self)@.cells[i] == blank_cell(),
    {
        let n = self.screen.len();
        let mut i: usize = 0;
        while i < n
            invariant
                old(self)@.wf(),
                i <= n,
                n == old(self)@.cells.len(),
                self.width == old(self).width,
                self.height == old(self).height,
                self.font_width == old(self).font_width,
                self.font_height == old(self).font_height,
                self.keys@ == old(self).keys@,
                self.prev_down@ == old(self).prev_down@,
                self.screen@.len() == n,
                forall|j: int| 0 <= j < i ==> self.screen@[j] == blank_cell(),
            decreases n - i,
        {
            self.screen.set(i, Cell { glyph: ' ', color: 0 });
            i = i + 1;
        }
    }

    /// Reallocates the grid to `new_width`-by-`new_height` blank cells,
    /// discarding all prior content, and records the new advisory font
    /// metrics.  The key-state tracker is untouched.  The physical surface
    /// resize is the backend's concern.
    pub fn resize(
        &mut self,
        new_width: usize,
        new_height: usize,
        new_font_width: i16,
        new_font_height: i16,
    )
        requires
            old(self)@.wf(),
            new_width >= 1,
            new_height >= 1,
            new_width * new_height <= usize::MAX,
        ensures
            final(self)@.wf(),
            final(self)@.width == new_width,
            final(self)@.height == new_height,
            final(self)@.font_width == new_font_width,
            final(self)@.font_height == new_font_height,
            final(self)@.cells.len() == new_width * new_height,
            forall|i: int|
                0 <= i < final(self)@.cells.len() ==> final(self)@.cells[i] == blank_cell(),
            final(self)@.keys == old(self)@.keys,
            final(self)@.prev_down == old(self)@.prev_down,
    {
        let n = new_width * new_height;
        self.width = new_width;
        self.height = new_height;
        self.font_width = new_font_width;
        self.font_height = new_font_height;
        self.screen = filled(n, Cell { glyph: ' ', color: 0 });
    }

    /// One input-tracker tick: folds the raw "is down now" samples in
    /// `raw` (one per key code) against the previous frame's raw state
    /// into pressed/held/released edges, then keeps `raw` as the previous
    /// state for the next tick.
    ///
    /// For a key whose raw state changed: going down sets `pressed` unless
    /// it was already held, and sets `held`; going up sets `released` and
    /// clears `held`.  For an unchanged key, `pressed` and `released` are
    /// cleared and `held` stays.
    pub fn update_key_states(&mut self, raw: &Vec<bool>)
        requires
            old(self)@.wf(),
            raw@.len() == 256,
        ensures
            final(self)@.wf(),
            final(self)@.width == old(self)@.width,
            final(self)@.height == old(self)@.height,
            final(self)@.font_width == old(self)@.font_width,
            final(self)@.font_height == old(self)@.font_height,
            final(self)@.cells == old(self)@.cells,
            final(self)@.prev_down == raw@,
            forall|k: int|
                0 <= k < 256 ==> final(self)@.keys[k] == (KeyState {
                    pressed: raw@[k] != old(self)@.prev_down[k] && raw@[k] && !old(
                        self,
                    )@.keys[k].held,
                    released: raw@[k] != old(self)@.prev_down[k] && !raw@[k],
                    held: if raw@[k] != old(self)@.prev_down[k] {
                        raw@[k]
                    } else {
                        old(self)@.keys[k].held
                    },
                }),
    {
        let mut k: usize = 0;
        while k < 256
            invariant
                old(self)@.wf(),
                raw@.len() == 256,
                k <= 256,
                self.width == old(self).width,
                self.height == old(self).height,
                self.font_width == old(self).font_width,
                self.font_height == old(self).font_height,
                self.screen@ == old(self).screen@,
                self.keys@.len() == 256,
                self.prev_down@.len() == 256,
                forall|j: int| k <= j < 256 ==> self.keys@[j] == old(self).keys@[j],
                forall|j: int| k <= j < 256 ==> self.prev_down@[j] == old(self).prev_down@[j],
                forall|j: int| 0 <= j < k ==> self.prev_down@[j] == raw@[j],
                forall|j: int|
                    0 <= j < k ==> self.keys@[j] == (KeyState {
                        pressed: raw@[j] != old(self).prev_down@[j] && raw@[j] && !old(
                            self,
                        ).keys@[j].held,
                        released: raw@[j] != old(self).prev_down@[j] && !raw@[j],
                        held: if raw@[j] != old(self).prev_down@[j] {
                            raw@[j]
                        } else {
                            old(self).keys@[j].held
                        },
                    }),
            decreases 256 - k,
        {
            let down = raw[k];
            let was_down = self.prev_down[k];
            let was = self.keys[k];
            let mut next = KeyState { pressed: false, released: false, held: was.held };
            if down != was_down {
                if down {
                    next.pressed = !was.held;
                    next.held = true;
                } else {
                    next.released = true;
                    next.held = false;
                }
            }
            self.keys.set(k, next);
            self.prev_down.set(k, down);
            k = k + 1;
        }
    }

    /// Draws the half-open rectangle [x1, x2) x [y1, y2), clipped to the
    /// grid by `draw`'s own bounds check.
    pub fn fill(&mut self, x1: usize, y1: usize, x2: usize, y2: usize, c: char, col: u16)
        requires
            old(self)@.wf(),
        ensures
            final(self)@.wf(),
            old(self)@.same_frame(final(self)@),
            forall|px: int, py: int|
                old(self)@.in_bounds(px, py) ==> final(self)@.cell_at(px, py) == (if x1 <= px < x2
                    && y1 <= py < y2 {
                    (Cell { glyph: c, color: col })
                } else {
                    old(self)@.cell_at(px, py)
                }),
    {
        let mut x = x1;
        while x < x2
            invariant
                old(self)@.wf(),
                self@.wf(),
                old(self)@.same_frame(self@),
                x1 <= x,
                x <= x2 || x == x1,
                forall|px: int, py: int|
                    old(self)@.in_bounds(px, py) ==> self@.cell_at(px, py) == (if x1 <= px < x && y1
                        <= py < y2 {
                        (Cell { glyph: c, color: col })
                    } else {
                        old(self)@.cell_at(px, py)
                    }),
            decreases x2 - x,
        {
            let mut y = y1;
            while y < y2
                invariant
                    old(self)@.wf(),
                    self@.wf(),
                    old(self)@.same_frame(self@),
                    x1 <= x < x2,
                    y1 <= y,
                    y <= y2 || y == y1,
                    forall|px: int, py: int|
                        old(self)@.in_bounds(px, py) ==> self@.cell_at(px, py) == (if (x1 <= px < x
                            && y1 <= py < y2) || (px == x && y1 <= py < y) {
                            (Cell { glyph: c, color: col })
                        } else {
                            old(self)@.cell_at(px, py)
                        }),
                decreases y2 - y,
            {
                self.draw(x, y, c, col);
                y = y + 1;
            }
            x = x + 1;
        }
    }

    /// Writes the characters of `s` left to right starting at (x, y), one
    /// cell per character.  There is no wrapping; text past the right
    /// edge is dropped by `draw`'s bounds check, not by truncating the
    /// string.
    pub fn draw_string(&mut self, x: usize, y: usize, s: &str, col: u16)
        requires
            old(self)@.wf(),
        ensures
            final(self)@.wf(),
            old(self)@.same_frame(final(self)@),
            forall|px: int, py: int|
                old(self)@.in_bounds(px, py) ==> final(self)@.cell_at(px, py) == (if py == y && x
                    <= px < x + s@.len() {
                    (Cell { glyph: s@[px - x], color: col })
                } else {
                    old(self)@.cell_at(px, py)
                }),
    {
        let n = s.unicode_len();
        let mut i: usize = 0;
        while i < n
            invariant
                old(self)@.wf(),
                self@.wf(),
                old(self)@.same_frame(self@),
                old(self)@.width <= usize::MAX,
                n == s@.len(),
                i <= n,
                forall|px: int, py: int|
                    old(self)@.in_bounds(px, py) ==> self@.cell_at(px, py) == (if py == y && x <= px
                        < x + i {
                        (Cell { glyph: s@[px - x], color: col })
                    } else {
                        old(self)@.cell_at(px, py)
                    }),
            decreases n - i,
        {
            let ch = s.get_char(i);
            if i <= usize::MAX - x {
                self.draw(x + i, y, ch, col);
            }
            i = i + 1;
        }
    }

    /// Like `draw_string`, but the space character is transparent: it
    /// leaves the destination cell as it was.
    pub fn draw_string_alpha(&mut self, x: usize, y: usize, s: &str, col: u16)
        requires
            old(self)@.wf(),
        ensures
            final(self)@.wf(),
            old(self)@.same_frame(final(self)@),
            forall|px: int, py: int|
                old(self)@.in_bounds(px, py) ==> final(self)@.cell_at(px, py) == (if py == y && x
                    <= px < x + s@.len() && s@[px - x] != ' ' {
                    (Cell { glyph: s@[px - x], color: col })
                } else {
                    old(self)@.cell_at(px, py)
                }),
    {
        let n = s.unicode_len();
        let mut i: usize = 0;
        while i < n
            invariant
                old(self)@.wf(),
                self@.wf(),
                old(self)@.same_frame(self@),
                old(self)@.width <= usize::MAX,
                n == s@.len(),
                i <= n,
                forall|px: int, py: int|
                    old(self)@.in_bounds(px, py) ==> self@.cell_at(px, py) == (if py == y && x <= px
                        < x + i && s@[px - x] != ' ' {
                        (Cell { glyph: s@[px - x], color: col })
                    } else {
                        old(self)@.cell_at(px, py)
                    }),
            decreases n - i,
        {
            let ch = s.get_char(i);
            if ch != ' ' {
                if i <= usize::MAX - x {
                    self.draw(x + i, y, ch, col);
                }
            }
            i = i + 1;
        }
    }

    /// Blits the sprite with its top-left corner at (x, y).  Sprite cells
    /// whose glyph is the blank glyph are transparent and leave the
    /// destination cell untouched.
    pub fn draw_sprite(&mut self, x: usize, y: usize, sprite: &RustConsoleSprite)
        requires
            old(self)@.wf(),
            sprite@.wf(),
        ensures
            final(self)@.wf(),
            old(self)@.same_frame(final(self)@),
            forall|px: int, py: int|
                old(self)@.in_bounds(px, py) ==> final(self)@.cell_at(px, py) == (if sprite_paints(
                    sprite@,
                    x as int,
                    y as int,
                    px,
                    py,
                ) {
                    sprite_cell(sprite@, x as int, y as int, px, py)
                } else {
                    old(self)@.cell_at(px, py)
                }),
    {
        let w = sprite.width();
        let h = sprite.height();
        let mut i: usize = 0;
        while i < w
            invariant
                old(self)@.wf(),
                self@.wf(),
                old(self)@.same_frame(self@),
                old(self)@.width <= usize::MAX,
                old(self)@.height <= usize::MAX,
                sprite@.wf(),
                w == sprite@.width,
                h == sprite@.height,
                i <= w,
                forall|px: int, py: int|
                    old(self)@.in_bounds(px, py) ==> self@.cell_at(px, py) == (if sprite_paints(
                        sprite@,
                        x as int,
                        y as int,
                        px,
                        py,
                    ) && px < x + i {
                        sprite_cell(sprite@, x as int, y as int, px, py)
                    } else {
                        old(self)@.cell_at(px, py)
                    }),
            decreases w - i,
        {
            let mut j: usize = 0;
            while j < h
                invariant
                    old(self)@.wf(),
                    self@.wf(),
                    old(self)@.same_frame(self@),
                    old(self)@.width <= usize::MAX,
                    old(self)@.height <= usize::MAX,
                    sprite@.wf(),
                    w == sprite@.width,
                    h == sprite@.height,
                    i < w,
                    j <= h,
                    forall|px: int, py: int|
                        old(self)@.in_bounds(px, py) ==> self@.cell_at(px, py) == (if sprite_paints(
                            sprite@,
                            x as int,
                            y as int,
                            px,
                            py,
                        ) && (px < x + i || (px == x + i && py < y + j)) {
                            sprite_cell(sprite@, x as int, y as int, px, py)
                        } else {
                            old(self)@.cell_at(px, py)
                        }),
                decreases h - j,
            {
                let g = sprite.get_glyph(i, j);
                if g != ' ' {
                    if i <= usize::MAX - x && j <= usize::MAX - y {
                        self.draw(x + i, y + j, g, sprite.get_color(i, j));
                    }
                }
                j = j + 1;
            }
            i = i + 1;
        }
    }
}

/// Whether blitting sprite `s` at offset (x, y) writes the grid point
/// (px, py): the point lies under the sprite and the sprite's glyph
/// there is not the transparent blank.
pub open spec fn sprite_paints(s: SpriteView, x: int, y: int, px: int, py: int) -> bool {
    &&& x <= px < x + s.width
    &&& y <= py < y + s.height
    &&& s.glyphs[(py - y) * s.width + (px - x)] != ' '
}

/// The cell a sprite blit at offset (x, y) writes to the grid point
/// (px, py).
pub open spec fn sprite_cell(s: SpriteView, x: int, y: int, px: int, py: int) -> Cell {
    Cell {
        glyph: s.glyphs[(py - y) * s.width + (px - x)],
        color: s.colors[(py - y) * s.width + (px - x)],
    }
}

} // verus!
