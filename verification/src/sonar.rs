//! Scans the rocks in the world for edges, and runs visibility checks for
//! them.

use crate::grid::{cell_index, lemma_cell_index_bounds};
use crate::rocks::{RockCell, RockGrid};
use vstd::prelude::*;

verus! {

/// How far the sonar reaches, in rock cells.
pub const SONAR_RANGE: usize = 75;

/// Coordinates handed to the line walk stay below this bound, so that its
/// error term fits in an `i32`.
pub const LINE_LIMIT: usize = 0x1000_0000;

pub open spec fn abs_diff(a: int, b: int) -> int {
    if a <= b {
        b - a
    } else {
        a - b
    }
}

/// The direction, along one axis, in which the line walks.
pub open spec fn toward(a: int, b: int) -> int {
    if a < b {
        1
    } else {
        -1
    }
}

/// Whether `v` lies between `a` and `b`, both included.
pub open spec fn between(a: int, b: int, v: int) -> bool {
    if a <= b {
        a <= v <= b
    } else {
        b <= v <= a
    }
}

/// The cell that the line from `(x1, y1)` to `(x2, y2)` visits after `p`
/// (Bresenham's step): with the error term of `p`, it steps along x when
/// twice the error is at least the (negated) vertical distance, and along y
/// when twice the error is at most the horizontal distance; a step may do
/// both.
pub open spec fn line_step(x1: int, y1: int, x2: int, y2: int, p: (int, int)) -> (int, int) {
    let dx = abs_diff(x1, x2);
    let dy = abs_diff(y1, y2);
    let err = dx - dy + dx * abs_diff(y1, p.1) - dy * abs_diff(x1, p.0);
    (
        if 2 * err >= -dy {
            p.0 + toward(x1, x2)
        } else {
            p.0
        },
        if 2 * err <= dx {
            p.1 + toward(y1, y2)
        } else {
            p.1
        },
    )
}

/// The `i`-th cell of the line from `(x1, y1)` to `(x2, y2)`.
pub open spec fn line_point(x1: int, y1: int, x2: int, y2: int, i: nat) -> (int, int)
    decreases i,
{
    if i == 0 {
        (x1, y1)
    } else {
        line_step(x1, y1, x2, y2, line_point(x1, y1, x2, y2, (i - 1) as nat))
    }
}

/// How many cells the line visits: one per step along the longer axis,
/// and the first.
pub open spec fn line_len(x1: int, y1: int, x2: int, y2: int) -> int {
    if abs_diff(x1, x2) >= abs_diff(y1, y2) {
        abs_diff(x1, x2) + 1
    } else {
        abs_diff(y1, y2) + 1
    }
}

/// Whether two cells are in the same 4x4 block.
pub open spec fn spec_is_neighbour(x1: int, y1: int, x2: int, y2: int) -> bool {
    x1 / 4 == x2 / 4 && y1 / 4 == y2 / 4
}

pub open spec fn spec_distance_squared(x1: int, y1: int, x2: int, y2: int) -> int {
    abs_diff(x1, x2) * abs_diff(x1, x2) + abs_diff(y1, y2) * abs_diff(y1, y2)
}

pub fn is_neighbour(x1: usize, y1: usize, x2: usize, y2: usize) -> (r: bool)
    ensures
        r == spec_is_neighbour(x1 as int, y1 as int, x2 as int, y2 as int),
{
    // Good enough™
    x1 / 4 == x2 / 4 && y1 / 4 == y2 / 4
}

/// The two numbers in ascending order.
pub fn sort(a: usize, b: usize) -> (r: (usize, usize))
    ensures
        r == (if a <= b {
            (a, b)
        } else {
            (b, a)
        }),
{
    if a <= b {
        (a, b)
    } else {
        (b, a)
    }
}

pub fn distance_squared(x1: usize, y1: usize, x2: usize, y2: usize) -> (r: usize)
    requires
        spec_distance_squared(x1 as int, y1 as int, x2 as int, y2 as int) <= usize::MAX,
    ensures
        r == spec_distance_squared(x1 as int, y1 as int, x2 as int, y2 as int),
{
    let (x1, x2) = sort(x1, x2);
    let (y1, y2) = sort(y1, y2);
    proof {
        assert(0 <= (x2 - x1) * (x2 - x1)) by (nonlinear_arith);
        assert(0 <= (y2 - y1) * (y2 - y1)) by (nonlinear_arith);
    }
    (x2 - x1) * (x2 - x1) + (y2 - y1) * (y2 - y1)
}

proof fn lemma_step_x(dx: int, dy: int, a: int, b: int, v: int)
    requires
        v == dx * b - dy * a,
    ensures
        v - dy == dx * b - dy * (a + 1),
{
    assert(dy * (a + 1) == dy * a + dy) by (nonlinear_arith);
}

proof fn lemma_step_y(dx: int, dy: int, a: int, b: int, v: int)
    requires
        v == dx * b - dy * a,
    ensures
        v + dx == dx * (b + 1) - dy * a,
{
    assert(dx * (b + 1) == dx * b + dx) by (nonlinear_arith);
}

/// At the far column and short of the far row, the error term forbids
/// another step along x.
proof fn lemma_x_done(dx: int, dy: int, b: int, v: int)
    requires
        0 <= dx,
        0 <= b < dy,
        v == dx * b - dy * dx,
    ensures
        v <= -dx,
{
    assert(dx * b - dy * dx == dx * (b - dy)) by (nonlinear_arith);
    assert(dx * (b - dy) <= -dx) by (nonlinear_arith)
        requires
            0 <= dx,
            b - dy <= -1,
    ;
}

/// At the far row and short of the far column, the error term forces a
/// step along x.
proof fn lemma_y_done(dx: int, dy: int, a: int, v: int)
    requires
        0 <= dy,
        0 <= a < dx,
        v == dx * dy - dy * a,
    ensures
        v >= dy,
{
    assert(dx * dy - dy * a == dy * (dx - a)) by (nonlinear_arith);
    assert(dy * (dx - a) >= dy) by (nonlinear_arith)
        requires
            0 <= dy,
            dx - a >= 1,
    ;
}

/// Bresenham's line algorithm used to find all cells between two points:
/// the cells from `(x1, y1)` to `(x2, y2)`, one per step along the longer
/// axis, each a step along x, along y, or along both from the one before.
pub fn line_cells(x1: usize, y1: usize, x2: usize, y2: usize) -> (cells: Vec<(usize, usize)>)
    requires
        x1 < LINE_LIMIT,
        y1 < LINE_LIMIT,
        x2 < LINE_LIMIT,
        y2 < LINE_LIMIT,
    ensures
        cells@.len() == line_len(x1 as int, y1 as int, x2 as int, y2 as int),
        forall|i: int|
            0 <= i < cells@.len() ==> (#[trigger] cells@[i]).0 as int == line_point(
                x1 as int,
                y1 as int,
                x2 as int,
                y2 as int,
                i as nat,
            ).0 && cells@[i].1 as int == line_point(x1 as int, y1 as int, x2 as int, y2 as int, i as nat).1,
        cells@[cells@.len() - 1] == (x2, y2),
        forall|i: int|
            0 <= i < cells@.len() ==> between(x1 as int, x2 as int, (#[trigger] cells@[i]).0 as int)
                && between(y1 as int, y2 as int, cells@[i].1 as int),
{
    let ghost gx1 = x1 as int;
    let ghost gy1 = y1 as int;
    let ghost gx2 = x2 as int;
    let ghost gy2 = y2 as int;
    let ix1: i32 = x1 as i32;
    let iy1: i32 = y1 as i32;
    let ix2: i32 = x2 as i32;
    let iy2: i32 = y2 as i32;

    let dx: i32 = if ix1 >= ix2 { ix1 - ix2 } else { ix2 - ix1 };
    let dy: i32 = if iy1 >= iy2 { -(iy1 - iy2) } else { -(iy2 - iy1) };

    let sx: i32 = if ix1 < ix2 { 1 } else { -1 };
    let sy: i32 = if iy1 < iy2 { 1 } else { -1 };

    let mut err: i32 = dx + dy;

    let mut x: i32 = ix1;
    let mut y: i32 = iy1;
    let ghost big_d: int = -dy;
    let ghost m: int = if dx >= big_d { dx as int } else { big_d };
    let ghost mut a: int = 0;
    let ghost mut b: int = 0;
    let ghost mut v: int = 0;
    let mut out: Vec<(usize, usize)> = Vec::new();

    loop
        invariant
            gx1 == ix1,
            gx1 == x1,
            gy1 == y1,
            gx2 == x2,
            gy2 == y2,
            gy1 == iy1,
            gx2 == ix2,
            gy2 == iy2,
            0 <= ix1 < LINE_LIMIT,
            0 <= iy1 < LINE_LIMIT,
            0 <= ix2 < LINE_LIMIT,
            0 <= iy2 < LINE_LIMIT,
            dx == abs_diff(gx1, gx2),
            big_d == abs_diff(gy1, gy2),
            dy == -big_d,
            m == (if dx >= big_d { dx as int } else { big_d }),
            sx == toward(gx1, gx2),
            sy == toward(gy1, gy2),
            0 <= a <= dx,
            0 <= b <= big_d,
            x == ix1 + sx * a,
            y == iy1 + sy * b,
            v == dx * b - big_d * a,
            err == dx - big_d + v,
            -m <= 2 * v <= m,
            out@.len() == (if dx >= big_d { a } else { b }),
            forall|i: int|
                0 <= i < out@.len() ==> (#[trigger] out@[i]).0 as int == line_point(gx1, gy1, gx2, gy2, i as nat).0
                    && out@[i].1 as int == line_point(gx1, gy1, gx2, gy2, i as nat).1,
            line_point(gx1, gy1, gx2, gy2, out@.len() as nat) == (x as int, y as int),
            forall|i: int|
                0 <= i < out@.len() ==> between(gx1, gx2, (#[trigger] out@[i]).0 as int)
                    && between(gy1, gy2, out@[i].1 as int),
        decreases (dx - a) + (big_d - b),
    {
        proof {
            assert(x == gx1 + sx * a);
            assert(0 <= x);
            assert(0 <= y);
        }
        let ghost before = out@;
        out.push((x as usize, y as usize));
        proof {
            assert forall|i: int|
                0 <= i < out@.len() implies (#[trigger] out@[i]).0 as int == line_point(gx1, gy1, gx2, gy2, i as nat).0
                    && out@[i].1 as int == line_point(gx1, gy1, gx2, gy2, i as nat).1 by {
                if i < before.len() {
                    assert(out@[i] == before[i]);
                }
            }
            assert forall|i: int|
                0 <= i < out@.len() implies between(gx1, gx2, (#[trigger] out@[i]).0 as int)
                    && between(gy1, gy2, out@[i].1 as int) by {
                if i < before.len() {
                    assert(out@[i] == before[i]);
                }
            }
        }

        if x == ix2 && y == iy2 {
            proof {
                assert(x == ix2 ==> a == dx);
                assert(y == iy2 ==> b == big_d);
                assert(out@.len() == line_len(gx1, gy1, gx2, gy2));
            }
            return out;
        }
        let ghost n = before.len();
        proof {
            assert(abs_diff(gx1, x as int) == a);
            assert(abs_diff(gy1, y as int) == b);
            let p = line_point(gx1, gy1, gx2, gy2, n as nat);
            assert(line_point(gx1, gy1, gx2, gy2, (n + 1) as nat) == line_step(gx1, gy1, gx2, gy2, p));
            if a == dx && b < big_d {
                lemma_x_done(dx as int, big_d, b, v);
            }
            if b == big_d && a < dx {
                lemma_y_done(dx as int, big_d, a, v);
            }
        }

        let e2 = err * 2;
        let step_x = e2 >= dy;
        let step_y = e2 <= dx;
        proof {
            // The longer axis moves on every step.
            assert(dx >= big_d ==> step_x);
            assert(big_d >= dx ==> step_y);
            assert(step_x ==> a < dx);
            assert(step_y ==> b < big_d);
        }
        if step_x {
            proof {
                lemma_step_x(dx as int, big_d, a, b, v);
                v = v - big_d;
                a = a + 1;
            }
            err = err + dy;
            x = x + sx;
        }
        if step_y {
            proof {
                lemma_step_y(dx as int, big_d, a, b, v);
                v = v + dx;
                b = b + 1;
            }
            err = err + dx;
            y = y + sy;
        }
    }
}

/// The sonar's picture of the world: the rock edges it can see, relative to
/// the sonar's position.
pub struct Sonar {
    visible_edge_cells: Vec<(i16, i16)>,
    pub pulse: usize,
}

impl Default for Sonar {
    fn default() -> (r: Self)
        ensures
            r.spec_visible_edge_cells().len() == 0,
            r.spec_pulse() == 0,
    {
        Sonar { visible_edge_cells: Vec::new(), pulse: 0 }
    }
}

impl Sonar {
    pub closed spec fn spec_visible_edge_cells(&self) -> Seq<(i16, i16)> {
        self.visible_edge_cells@
    }

    pub closed spec fn spec_pulse(&self) -> usize {
        self.pulse
    }

    pub fn visible_edge_cells(&self) -> (r: &Vec<(i16, i16)>)
        ensures
            r@ == self.spec_visible_edge_cells(),
    {
        &self.visible_edge_cells
    }
}


/// Rock-grid coordinates and sonar positions stay below this bound, so that
/// the offsets the sonar stores fit in an `i16`.
pub const SONAR_GRID_LIMIT: usize = 0x8000;

/// The `i`-th cell of the line from the edge cell `(x, y)` to the sonar at
/// `(cx, cy)` is a wall outside the edge cell's own 4x4 block.
pub open spec fn blocks_at(grid: RockGrid, x: int, y: int, cx: int, cy: int, i: int) -> bool {
    let p = line_point(x, y, cx, cy, i as nat);
    &&& grid.cell_at(p.0, p.1).spec_is_wall()
    &&& !spec_is_neighbour(x, y, p.0, p.1)
}

/// Some wall blocks the sonar's view of the cell `(x, y)`.
pub open spec fn line_blocked(grid: RockGrid, x: int, y: int, cx: int, cy: int) -> bool {
    exists|i: int| 0 <= i < line_len(x, y, cx, cy) && #[trigger] blocks_at(grid, x, y, cx, cy, i)
}

/// The sonar at `(cx, cy)` sees the rock cell `(x, y)`: it is an edge cell,
/// within range, and nothing blocks the view.
pub open spec fn sees_cell(grid: RockGrid, edges: Seq<bool>, cx: int, cy: int, x: int, y: int) -> bool {
    &&& edges[cell_index(grid.w(), x, y)]
    &&& spec_distance_squared(x, y, cx, cy) <= SONAR_RANGE * SONAR_RANGE
    &&& !line_blocked(grid, x, y, cx, cy)
}

/// Where a seen cell is stored: its offset from the sonar.
pub open spec fn sonar_offset(cx: int, cy: int, x: int, y: int) -> (i16, i16) {
    ((cx - x) as i16, (cy - y) as i16)
}

/// The cells the sonar sees in row `y`, for `x` from `left` up to `x_end`
/// (excluded), in order.
pub open spec fn seen_in_row(
    grid: RockGrid,
    edges: Seq<bool>,
    cx: int,
    cy: int,
    y: int,
    left: int,
    x_end: int,
) -> Seq<(i16, i16)>
    decreases x_end - left,
{
    if x_end <= left {
        Seq::empty()
    } else {
        let before = seen_in_row(grid, edges, cx, cy, y, left, x_end - 1);
        if sees_cell(grid, edges, cx, cy, x_end - 1, y) {
            before.push(sonar_offset(cx, cy, x_end - 1, y))
        } else {
            before
        }
    }
}

/// The cells the sonar sees in rows `top` up to `y_end` (excluded), each row
/// scanned from `left` to `right`.
pub open spec fn seen_in_rows(
    grid: RockGrid,
    edges: Seq<bool>,
    cx: int,
    cy: int,
    top: int,
    y_end: int,
    left: int,
    right: int,
) -> Seq<(i16, i16)>
    decreases y_end - top,
{
    if y_end <= top {
        Seq::empty()
    } else {
        seen_in_rows(grid, edges, cx, cy, top, y_end - 1, left, right) + seen_in_row(
            grid,
            edges,
            cx,
            cy,
            y_end - 1,
            left,
            right + 1,
        )
    }
}

/// The first coordinate of the scanned window: the sonar's range or the grid's.
pub open spec fn window_low(c: int) -> int {
    if c >= SONAR_RANGE {
        c - SONAR_RANGE
    } else {
        0
    }
}

pub open spec fn window_high(c: int, size: int) -> int {
    if c + SONAR_RANGE <= size - 1 {
        c + SONAR_RANGE
    } else {
        size - 1
    }
}

proof fn lemma_in_range(d: int)
    requires
        0 <= d,
        d * d <= SONAR_RANGE * SONAR_RANGE,
    ensures
        d <= SONAR_RANGE,
{
    if d > SONAR_RANGE {
        assert(d * d > SONAR_RANGE * SONAR_RANGE) by (nonlinear_arith)
            requires
                d > SONAR_RANGE,
        ;
    }
}

/// Whether a wall outside the edge cell's block lies on the line from the
/// edge cell `(x, y)` to the sonar.
fn visibility_blocked(rock_grid: &RockGrid, x: usize, y: usize, cx: usize, cy: usize) -> (r: bool)
    requires
        rock_grid.wf(),
        rock_grid.in_bounds(x as int, y as int),
        rock_grid.in_bounds(cx as int, cy as int),
        rock_grid.w() <= SONAR_GRID_LIMIT,
        rock_grid.h() <= SONAR_GRID_LIMIT,
    ensures
        r == line_blocked(*rock_grid, x as int, y as int, cx as int, cy as int),
{
    let cells = line_cells(x, y, cx, cy);
    let mut blocked = false;
    let mut i: usize = 0;
    while i < cells.len()
        invariant
            rock_grid.wf(),
            rock_grid.in_bounds(x as int, y as int),
            rock_grid.in_bounds(cx as int, cy as int),
            cells@.len() == line_len(x as int, y as int, cx as int, cy as int),
            forall|j: int|
                0 <= j < cells@.len() ==> (#[trigger] cells@[j]).0 as int == line_point(
                    x as int,
                    y as int,
                    cx as int,
                    cy as int,
                    j as nat,
                ).0 && cells@[j].1 as int == line_point(x as int, y as int, cx as int, cy as int, j as nat).1,
            forall|j: int|
                0 <= j < cells@.len() ==> between(x as int, cx as int, (#[trigger] cells@[j]).0 as int)
                    && between(y as int, cy as int, cells@[j].1 as int),
            i <= cells@.len(),
            blocked == exists|j: int| 0 <= j < i && #[trigger] blocks_at(*rock_grid, x as int, y as int, cx as int, cy as int, j),
        decreases cells@.len() - i,
    {
        let (x2, y2) = cells[i];
        proof {
            assert(between(x as int, cx as int, cells@[i as int].0 as int));
        }
        let hit = rock_grid.cell(x2, y2).is_wall() && !is_neighbour(x, y, x2, y2);
        proof {
            assert(hit == blocks_at(*rock_grid, x as int, y as int, cx as int, cy as int, i as int));
        }
        if hit {
            blocked = true;
        }
        i = i + 1;
    }
    blocked
}

/// Rebuilds the list of rock edge cells that the sonar at `center` can see:
/// the cells of `edges` within its range whose view is not blocked by a
/// wall, scanned row by row, each stored as its offset from the sonar.
pub fn find_visible_edge_cells(
    sonar: &mut Sonar,
    center: (usize, usize),
    rock_grid: &RockGrid,
    edges: &Vec<bool>,
)
    requires
        rock_grid.wf(),
        edges@.len() == rock_grid.cells().len(),
        1 <= rock_grid.w() <= SONAR_GRID_LIMIT,
        1 <= rock_grid.h() <= SONAR_GRID_LIMIT,
        rock_grid.in_bounds(center.0 as int, center.1 as int),
    ensures
        final(sonar).spec_pulse() == old(sonar).spec_pulse(),
        final(sonar).spec_visible_edge_cells() == seen_in_rows(
            *rock_grid,
            edges@,
            center.0 as int,
            center.1 as int,
            window_low(center.1 as int),
            window_high(center.1 as int, rock_grid.h()) + 1,
            window_low(center.0 as int),
            window_high(center.0 as int, rock_grid.w()),
        ),
{
    sonar.visible_edge_cells = Vec::new();

    let (width, height) = rock_grid.size();
    let (center_x, center_y) = center;
    let ghost cx = center_x as int;
    let ghost cy = center_y as int;

    let left_edge = center_x.saturating_sub(SONAR_RANGE);
    let right_edge = if center_x + SONAR_RANGE <= width - 1 { center_x + SONAR_RANGE } else { width - 1 };

    let top_edge = center_y.saturating_sub(SONAR_RANGE);
    let bottom_edge = if center_y + SONAR_RANGE <= height - 1 { center_y + SONAR_RANGE } else { height - 1 };

    // Look at the edge cells in region; this averages to checking around 300 cells.
    let mut y = top_edge;
    while y <= bottom_edge
        invariant
            rock_grid.wf(),
            edges@.len() == rock_grid.cells().len(),
            1 <= rock_grid.w() <= SONAR_GRID_LIMIT,
            1 <= rock_grid.h() <= SONAR_GRID_LIMIT,
            width == rock_grid.w(),
            height == rock_grid.h(),
            center_x == center.0,
            center_y == center.1,
            rock_grid.in_bounds(center_x as int, center_y as int),
            left_edge == window_low(center_x as int),
            right_edge == window_high(center_x as int, width as int),
            top_edge == window_low(center_y as int),
            bottom_edge == window_high(center_y as int, height as int),
            top_edge <= y <= bottom_edge + 1 || (y == top_edge && top_edge > bottom_edge),
            sonar.spec_pulse() == old(sonar).spec_pulse(),
            sonar.spec_visible_edge_cells() == seen_in_rows(
                *rock_grid,
                edges@,
                center_x as int,
                center_y as int,
                top_edge as int,
                y as int,
                left_edge as int,
                right_edge as int,
            ),
        decreases bottom_edge + 1 - y,
    {
        let mut x = left_edge;
        let ghost rows_before = sonar.spec_visible_edge_cells();
        while x <= right_edge
            invariant
                rock_grid.wf(),
                edges@.len() == rock_grid.cells().len(),
                1 <= rock_grid.w() <= SONAR_GRID_LIMIT,
                1 <= rock_grid.h() <= SONAR_GRID_LIMIT,
                width == rock_grid.w(),
                height == rock_grid.h(),
                center_x == center.0,
                center_y == center.1,
                rock_grid.in_bounds(center_x as int, center_y as int),
                left_edge == window_low(center_x as int),
                right_edge == window_high(center_x as int, width as int),
                y <= bottom_edge,
                bottom_edge == window_high(center_y as int, height as int),
                left_edge <= x <= right_edge + 1 || (x == left_edge && left_edge > right_edge),
                sonar.spec_pulse() == old(sonar).spec_pulse(),
                sonar.spec_visible_edge_cells() == rows_before + seen_in_row(
                    *rock_grid,
                    edges@,
                    center_x as int,
                    center_y as int,
                    y as int,
                    left_edge as int,
                    x as int,
                ),
            decreases right_edge + 1 - x,
        {
            proof {
                lemma_cell_index_bounds(width as int, height as int, x as int, y as int);
                rock_grid.lemma_wf();
                assert(0 <= abs_diff(x as int, center_x as int) * abs_diff(x as int, center_x as int)) by (nonlinear_arith);
                assert(0 <= abs_diff(y as int, center_y as int) * abs_diff(y as int, center_y as int)) by (nonlinear_arith);
                assert(abs_diff(x as int, center_x as int) * abs_diff(x as int, center_x as int) <= SONAR_GRID_LIMIT * SONAR_GRID_LIMIT) by (nonlinear_arith)
                    requires
                        0 <= abs_diff(x as int, center_x as int) <= SONAR_GRID_LIMIT,
                ;
                assert(abs_diff(y as int, center_y as int) * abs_diff(y as int, center_y as int) <= SONAR_GRID_LIMIT * SONAR_GRID_LIMIT) by (nonlinear_arith)
                    requires
                        0 <= abs_diff(y as int, center_y as int) <= SONAR_GRID_LIMIT,
                ;
            }
            let _len = edges.len();
            let is_edge = edges[y * width + x];
            let seen = is_edge && distance_squared(x, y, center_x, center_y) <= SONAR_RANGE * SONAR_RANGE
                && !visibility_blocked(rock_grid, x, y, center_x, center_y);
            proof {
                assert(seen == sees_cell(*rock_grid, edges@, center_x as int, center_y as int, x as int, y as int));
            }
            if seen {
                proof {
                    lemma_in_range(abs_diff(x as int, center_x as int));
                    lemma_in_range(abs_diff(y as int, center_y as int));
                }
                let offset = (center_x as i16 - x as i16, center_y as i16 - y as i16);
                sonar.visible_edge_cells.push(offset);
            }
            proof {
                assert(sonar.spec_visible_edge_cells() == rows_before + seen_in_row(
                    *rock_grid,
                    edges@,
                    center_x as int,
                    center_y as int,
                    y as int,
                    left_edge as int,
                    x + 1,
                ));
            }
            x = x + 1;
        }
        proof {
            assert(x == right_edge + 1 || left_edge > right_edge);
        }
        y = y + 1;
    }
}

/// The sonar at `(cx, cy)` can see rock cell `(x, y)`: it is an edge cell,
/// its squared distance from the sonar is at most `SONAR_RANGE`², and no
/// wall outside its own block lies on the line between them.
pub open spec fn visible(grid: RockGrid, edges: Seq<bool>, cx: int, cy: int, x: int, y: int) -> bool {
    &&& grid.in_bounds(x, y)
    &&& edges[cell_index(grid.w(), x, y)]
    &&& (x - cx) * (x - cx) + (y - cy) * (y - cy) <= SONAR_RANGE * SONAR_RANGE
    &&& !line_blocked(grid, x, y, cx, cy)
}

/// What `find_visible_edge_cells` lists for the sonar at `(cx, cy)`.
pub open spec fn sonar_list(grid: RockGrid, edges: Seq<bool>, cx: int, cy: int) -> Seq<(i16, i16)> {
    seen_in_rows(
        grid,
        edges,
        cx,
        cy,
        window_low(cy),
        window_high(cy, grid.h()) + 1,
        window_low(cx),
        window_high(cx, grid.w()),
    )
}

proof fn lemma_squares(x: int, cx: int)
    ensures
        abs_diff(x, cx) * abs_diff(x, cx) == (x - cx) * (x - cx),
        0 <= (x - cx) * (x - cx),
{
    assert(0 <= (x - cx) * (x - cx)) by (nonlinear_arith);
    if x > cx {
        assert(abs_diff(x, cx) == x - cx);
    } else {
        assert(abs_diff(x, cx) * abs_diff(x, cx) == (x - cx) * (x - cx)) by (nonlinear_arith)
            requires
                abs_diff(x, cx) == cx - x,
        ;
    }
}

proof fn lemma_row_lists(grid: RockGrid, edges: Seq<bool>, cx: int, cy: int, y: int, left: int, x_end: int, x: int)
    requires
        left <= x < x_end,
        sees_cell(grid, edges, cx, cy, x, y),
    ensures
        seen_in_row(grid, edges, cx, cy, y, left, x_end).contains(sonar_offset(cx, cy, x, y)),
    decreases x_end - left,
{
    let r = seen_in_row(grid, edges, cx, cy, y, left, x_end);
    let before = seen_in_row(grid, edges, cx, cy, y, left, x_end - 1);
    if x == x_end - 1 {
        assert(r == before.push(sonar_offset(cx, cy, x, y)));
        assert(r[r.len() - 1] == sonar_offset(cx, cy, x, y));
    } else {
        lemma_row_lists(grid, edges, cx, cy, y, left, x_end - 1, x);
        let k = choose|k: int| 0 <= k < before.len() && before[k] == sonar_offset(cx, cy, x, y);
        if sees_cell(grid, edges, cx, cy, x_end - 1, y) {
            assert(r[k] == before[k]);
        }
    }
}

proof fn lemma_rows_list(
    grid: RockGrid,
    edges: Seq<bool>,
    cx: int,
    cy: int,
    top: int,
    y_end: int,
    left: int,
    right: int,
    x: int,
    y: int,
)
    requires
        top <= y < y_end,
        left <= x <= right,
        sees_cell(grid, edges, cx, cy, x, y),
    ensures
        seen_in_rows(grid, edges, cx, cy, top, y_end, left, right).contains(sonar_offset(cx, cy, x, y)),
    decreases y_end - top,
{
    let before = seen_in_rows(grid, edges, cx, cy, top, y_end - 1, left, right);
    let row = seen_in_row(grid, edges, cx, cy, y_end - 1, left, right + 1);
    let r = seen_in_rows(grid, edges, cx, cy, top, y_end, left, right);
    assert(r == before + row);
    if y == y_end - 1 {
        lemma_row_lists(grid, edges, cx, cy, y, left, right + 1, x);
        let k = choose|k: int| 0 <= k < row.len() && row[k] == sonar_offset(cx, cy, x, y);
        assert(r[before.len() + k] == row[k]);
    } else {
        lemma_rows_list(grid, edges, cx, cy, top, y_end - 1, left, right, x, y);
        let k = choose|k: int| 0 <= k < before.len() && before[k] == sonar_offset(cx, cy, x, y);
        assert(r[k] == before[k]);
    }
}

/// Every edge cell that the sonar can see (see `visible`) is in its list,
/// stored as its offset from the sonar.
pub proof fn law_sonar_lists_visible_cells(grid: RockGrid, edges: Seq<bool>, cx: int, cy: int, x: int, y: int)
    requires
        grid.in_bounds(cx, cy),
        visible(grid, edges, cx, cy, x, y),
    ensures
        sonar_list(grid, edges, cx, cy).contains(((cx - x) as i16, (cy - y) as i16)),
{
    lemma_squares(x, cx);
    lemma_squares(y, cy);
    lemma_in_range(abs_diff(x, cx));
    lemma_in_range(abs_diff(y, cy));
    assert(sees_cell(grid, edges, cx, cy, x, y));
    lemma_rows_list(
        grid,
        edges,
        cx,
        cy,
        window_low(cy),
        window_high(cy, grid.h()) + 1,
        window_low(cx),
        window_high(cx, grid.w()),
        x,
        y,
    );
}

proof fn lemma_row_only(grid: RockGrid, edges: Seq<bool>, cx: int, cy: int, y: int, left: int, x_end: int, k: int)
    requires
        0 <= k < seen_in_row(grid, edges, cx, cy, y, left, x_end).len(),
    ensures
        exists|x: int|
            left <= x < x_end && sees_cell(grid, edges, cx, cy, x, y) && #[trigger] sonar_offset(cx, cy, x, y)
                == seen_in_row(grid, edges, cx, cy, y, left, x_end)[k],
    decreases x_end - left,
{
    let before = seen_in_row(grid, edges, cx, cy, y, left, x_end - 1);
    if k < before.len() {
        lemma_row_only(grid, edges, cx, cy, y, left, x_end - 1, k);
        let x = choose|x: int|
            left <= x < x_end - 1 && sees_cell(grid, edges, cx, cy, x, y) && #[trigger] sonar_offset(cx, cy, x, y)
                == before[k];
        assert(sonar_offset(cx, cy, x, y) == seen_in_row(grid, edges, cx, cy, y, left, x_end)[k]);
    } else {
        let x = x_end - 1;
        assert(sonar_offset(cx, cy, x, y) == seen_in_row(grid, edges, cx, cy, y, left, x_end)[k]);
    }
}

proof fn lemma_rows_only(
    grid: RockGrid,
    edges: Seq<bool>,
    cx: int,
    cy: int,
    top: int,
    y_end: int,
    left: int,
    right: int,
    k: int,
)
    requires
        0 <= k < seen_in_rows(grid, edges, cx, cy, top, y_end, left, right).len(),
    ensures
        exists|x: int, y: int|
            top <= y < y_end && left <= x <= right && sees_cell(grid, edges, cx, cy, x, y) && #[trigger] sonar_offset(
                cx,
                cy,
                x,
                y,
            ) == seen_in_rows(grid, edges, cx, cy, top, y_end, left, right)[k],
    decreases y_end - top,
{
    let before = seen_in_rows(grid, edges, cx, cy, top, y_end - 1, left, right);
    let row = seen_in_row(grid, edges, cx, cy, y_end - 1, left, right + 1);
    let r = seen_in_rows(grid, edges, cx, cy, top, y_end, left, right);
    assert(r == before + row);
    if k < before.len() {
        lemma_rows_only(grid, edges, cx, cy, top, y_end - 1, left, right, k);
        let (x, y) = choose|x: int, y: int|
            top <= y < y_end - 1 && left <= x <= right && sees_cell(grid, edges, cx, cy, x, y) && #[trigger] sonar_offset(
                cx,
                cy,
                x,
                y,
            ) == before[k];
        assert(sonar_offset(cx, cy, x, y) == r[k]);
    } else {
        lemma_row_only(grid, edges, cx, cy, y_end - 1, left, right + 1, k - before.len());
        let x = choose|x: int|
            left <= x < right + 1 && sees_cell(grid, edges, cx, cy, x, y_end - 1) && #[trigger] sonar_offset(
                cx,
                cy,
                x,
                y_end - 1,
            ) == row[k - before.len()];
        assert(sonar_offset(cx, cy, x, y_end - 1) == r[k]);
    }
}

/// Everything in the sonar's list is the offset of a cell it can see.
pub proof fn law_sonar_lists_only_visible_cells(grid: RockGrid, edges: Seq<bool>, cx: int, cy: int, k: int)
    requires
        grid.in_bounds(cx, cy),
        0 <= k < sonar_list(grid, edges, cx, cy).len(),
    ensures
        exists|x: int, y: int|
            visible(grid, edges, cx, cy, x, y) && #[trigger] sonar_offset(cx, cy, x, y) == sonar_list(
                grid,
                edges,
                cx,
                cy,
            )[k],
{
    lemma_rows_only(
        grid,
        edges,
        cx,
        cy,
        window_low(cy),
        window_high(cy, grid.h()) + 1,
        window_low(cx),
        window_high(cx, grid.w()),
        k,
    );
    let (x, y) = choose|x: int, y: int|
        window_low(cy) <= y < window_high(cy, grid.h()) + 1 && window_low(cx) <= x <= window_high(cx, grid.w())
            && sees_cell(grid, edges, cx, cy, x, y) && #[trigger] sonar_offset(cx, cy, x, y) == sonar_list(
            grid,
            edges,
            cx,
            cy,
        )[k];
    lemma_squares(x, cx);
    lemma_squares(y, cy);
    assert(visible(grid, edges, cx, cy, x, y));
}

} // verus!
