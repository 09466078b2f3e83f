//! The edges of the submarine's walls that cast shadows: straight runs of
//! wall cells whose side faces a cell that is not a wall.

use crate::water::WaterGrid;
use vstd::prelude::*;

verus! {

/// The side of a cell.
#[derive(Clone, Copy, PartialEq, Eq, Structural, Debug)]
pub enum Direction {
    Top,
    Right,
    Bottom,
    Left,
}

/// A straight run of wall cells from `start_cell` to `end_cell` (left to
/// right, or top to bottom) whose side `edge_type` faces open space.
#[derive(Clone, Copy, PartialEq, Eq, Debug)]
pub struct Edge {
    pub edge_type: Direction,
    pub start_cell: (usize, usize),
    pub end_cell: (usize, usize),
}

/// The directions in the order in which each cell is scanned.
pub open spec fn direction_at(i: int) -> Direction {
    if i == 0 {
        Direction::Top
    } else if i == 1 {
        Direction::Right
    } else if i == 2 {
        Direction::Bottom
    } else {
        Direction::Left
    }
}

/// Edges on the top and bottom of cells run horizontally.
pub open spec fn horizontal(d: Direction) -> bool {
    d is Top || d is Bottom
}

/// The neighbour of `(x, y)` on side `d`, inside a grid `w` by `h`.
pub open spec fn neighbour_of(w: int, h: int, x: int, y: int, d: Direction) -> Option<(int, int)> {
    match d {
        Direction::Top => if y == 0 {
            None
        } else {
            Some((x, y - 1))
        },
        Direction::Bottom => if y >= h - 1 {
            None
        } else {
            Some((x, y + 1))
        },
        Direction::Left => if x == 0 {
            None
        } else {
            Some((x - 1, y))
        },
        Direction::Right => if x >= w - 1 {
            None
        } else {
            Some((x + 1, y))
        },
    }
}

/// Side `d` of the wall at `(x, y)` faces a neighbour that is not a wall.
pub open spec fn spec_has_edge(g: WaterGrid, x: int, y: int, d: Direction) -> bool {
    &&& g.cell_at(x, y).spec_is_wall()
    &&& match neighbour_of(g.w(), g.h(), x, y, d) {
        Some(n) => !g.cell_at(n.0, n.1).spec_is_wall(),
        None => false,
    }
}

/// The cell before `(x, y)` in a run of edges on side `d`: the one to the
/// left for horizontal edges, the one above for vertical ones.
pub open spec fn run_prev(g: WaterGrid, x: int, y: int, d: Direction) -> Option<(int, int)> {
    if horizontal(d) {
        neighbour_of(g.w(), g.h(), x, y, Direction::Left)
    } else {
        neighbour_of(g.w(), g.h(), x, y, Direction::Top)
    }
}

/// The edge on side `d` of `(x, y)` starts a run.
pub open spec fn starts_run(g: WaterGrid, x: int, y: int, d: Direction) -> bool {
    &&& spec_has_edge(g, x, y, d)
    &&& match run_prev(g, x, y, d) {
        Some(p) => !spec_has_edge(g, p.0, p.1, d),
        None => true,
    }
}

/// The last column of a horizontal run of edges through `(x, y)`.
pub open spec fn run_end_x(g: WaterGrid, x: int, y: int, d: Direction) -> int
    decreases g.w() - x,
{
    if x + 1 < g.w() && spec_has_edge(g, x + 1, y, d) {
        run_end_x(g, x + 1, y, d)
    } else {
        x
    }
}

/// The last row of a vertical run of edges through `(x, y)`.
pub open spec fn run_end_y(g: WaterGrid, x: int, y: int, d: Direction) -> int
    decreases g.h() - y,
{
    if y + 1 < g.h() && spec_has_edge(g, x, y + 1, d) {
        run_end_y(g, x, y + 1, d)
    } else {
        y
    }
}

/// The edge that starts at `(x, y)` on side `d`.
pub open spec fn edge_from(g: WaterGrid, x: int, y: int, d: Direction) -> Edge {
    Edge {
        edge_type: d,
        start_cell: (x as usize, y as usize),
        end_cell: if horizontal(d) {
            (run_end_x(g, x, y, d) as usize, y as usize)
        } else {
            (x as usize, run_end_y(g, x, y, d) as usize)
        },
    }
}

/// The edges that start on the first `n` sides of cell `(x, y)`.
pub open spec fn cell_edges(g: WaterGrid, x: int, y: int, n: int) -> Seq<Edge>
    decreases n,
{
    if n <= 0 {
        Seq::empty()
    } else {
        let before = cell_edges(g, x, y, n - 1);
        if starts_run(g, x, y, direction_at(n - 1)) {
            before.push(edge_from(g, x, y, direction_at(n - 1)))
        } else {
            before
        }
    }
}

/// The edges that start in the first `n` cells of row `y`.
pub open spec fn row_edges(g: WaterGrid, y: int, n: int) -> Seq<Edge>
    decreases n,
{
    if n <= 0 {
        Seq::empty()
    } else {
        row_edges(g, y, n - 1) + cell_edges(g, n - 1, y, 4)
    }
}

/// The edges that start in the first `n` rows.
pub open spec fn grid_edges(g: WaterGrid, n: int) -> Seq<Edge>
    decreases n,
{
    if n <= 0 {
        Seq::empty()
    } else {
        grid_edges(g, n - 1) + row_edges(g, n - 1, g.w())
    }
}

impl Edge {
    /// The corners of the grid where the edge's line starts and ends.
    pub open spec fn spec_corners(self) -> ((int, int), (int, int)) {
        let (s_x, s_y) = match self.edge_type {
            Direction::Top => (0int, 0int),
            Direction::Right => (1, 0),
            Direction::Bottom => (0, 1),
            Direction::Left => (0, 0),
        };
        let (e_x, e_y) = match self.edge_type {
            Direction::Top => (1int, 0int),
            Direction::Right => (1, 1),
            Direction::Bottom => (1, 1),
            Direction::Left => (0, 1),
        };
        (
            (self.start_cell.0 + s_x, self.start_cell.1 + s_y),
            (self.end_cell.0 + e_x, self.end_cell.1 + e_y),
        )
    }

    /// The corners of the grid where the edge's line starts and ends: a
    /// top edge runs along the top of its cells, a right edge along their
    /// right side, and so on.
    pub fn line_corners(&self) -> (r: ((usize, usize), (usize, usize)))
        requires
            self.start_cell.0 < usize::MAX,
            self.start_cell.1 < usize::MAX,
            self.end_cell.0 < usize::MAX,
            self.end_cell.1 < usize::MAX,
        ensures
            r.0.0 == self.spec_corners().0.0,
            r.0.1 == self.spec_corners().0.1,
            r.1.0 == self.spec_corners().1.0,
            r.1.1 == self.spec_corners().1.1,
    {
        let (s_x, s_y): (usize, usize) = match self.edge_type {
            Direction::Top => (0, 0),
            Direction::Right => (1, 0),
            Direction::Bottom => (0, 1),
            Direction::Left => (0, 0),
        };

        let (e_x, e_y): (usize, usize) = match self.edge_type {
            Direction::Top => (1, 0),
            Direction::Right => (1, 1),
            Direction::Bottom => (1, 1),
            Direction::Left => (0, 1),
        };

        let start = (self.start_cell.0 + s_x, self.start_cell.1 + s_y);
        let end = (self.end_cell.0 + e_x, self.end_cell.1 + e_y);

        (start, end)
    }
}

fn direction_exec(i: usize) -> (d: Direction)
    requires
        i < 4,
    ensures
        d == direction_at(i as int),
{
    if i == 0 {
        Direction::Top
    } else if i == 1 {
        Direction::Right
    } else if i == 2 {
        Direction::Bottom
    } else {
        Direction::Left
    }
}

/// The neighbour of `(x, y)` on side `edge`, if the grid has one.
pub fn neighbour(water_grid: &WaterGrid, x: usize, y: usize, edge: Direction) -> (r: Option<(usize, usize)>)
    requires
        water_grid.wf(),
        water_grid.in_bounds(x as int, y as int),
    ensures
        match neighbour_of(water_grid.w(), water_grid.h(), x as int, y as int, edge) {
            Some(n) => r == Some((n.0 as usize, n.1 as usize)) && water_grid.in_bounds(n.0, n.1),
            None => r is None,
        },
{
    let (width, height) = water_grid.size();
    match edge {
        Direction::Top => if y == 0 {
            None
        } else {
            Some((x, y - 1))
        },
        Direction::Bottom => if y >= height - 1 {
            None
        } else {
            Some((x, y + 1))
        },
        Direction::Left => if x == 0 {
            None
        } else {
            Some((x - 1, y))
        },
        Direction::Right => if x >= width - 1 {
            None
        } else {
            Some((x + 1, y))
        },
    }
}

/// Whether side `edge` of the wall at `(x, y)` faces a cell that is not a
/// wall.
pub fn has_edge(water_grid: &WaterGrid, x: usize, y: usize, edge: Direction) -> (r: bool)
    requires
        water_grid.wf(),
        water_grid.in_bounds(x as int, y as int),
    ensures
        r == spec_has_edge(*water_grid, x as int, y as int, edge),
{
    if !water_grid.cell(x, y).is_wall() {
        return false;
    }

    let neighbour = match neighbour(water_grid, x, y, edge) {
        Some(neighbour) => neighbour,
        None => return false,
    };
    proof {
        water_grid.lemma_wf();
        let n = neighbour_of(water_grid.w(), water_grid.h(), x as int, y as int, edge)->Some_0;
        assert(neighbour.0 as int == n.0 && neighbour.1 as int == n.1);
    }

    !water_grid.cell(neighbour.0, neighbour.1).is_wall()
}

/// The edge that starts at `(x, y)` on side `d`, walked to its last cell.
fn walk_edge(water_grid: &WaterGrid, x: usize, y: usize, d: Direction) -> (e: Edge)
    requires
        water_grid.wf(),
        water_grid.in_bounds(x as int, y as int),
    ensures
        e == edge_from(*water_grid, x as int, y as int, d),
{
    let (width, height) = water_grid.size();
    if matches!(d, Direction::Top) || matches!(d, Direction::Bottom) {
        let mut end = x;
        while end + 1 < width && has_edge(water_grid, end + 1, y, d)
            invariant
                water_grid.wf(),
                width == water_grid.w(),
                height == water_grid.h(),
                y < height,
                x <= end < width,
                run_end_x(*water_grid, end as int, y as int, d) == run_end_x(*water_grid, x as int, y as int, d),
            decreases width - end,
        {
            end = end + 1;
        }
        Edge { edge_type: d, start_cell: (x, y), end_cell: (end, y) }
    } else {
        let mut end = y;
        while end + 1 < height && has_edge(water_grid, x, end + 1, d)
            invariant
                water_grid.wf(),
                width == water_grid.w(),
                height == water_grid.h(),
                x < width,
                y <= end < height,
                run_end_y(*water_grid, x as int, end as int, d) == run_end_y(*water_grid, x as int, y as int, d),
            decreases height - end,
        {
            end = end + 1;
        }
        Edge { edge_type: d, start_cell: (x, y), end_cell: (x, end) }
    }
}

/// Whether the edge on side `d` of `(x, y)` starts a run (see `starts_run`).
fn starts_run_exec(water_grid: &WaterGrid, x: usize, y: usize, d: Direction) -> (r: bool)
    requires
        water_grid.wf(),
        water_grid.in_bounds(x as int, y as int),
    ensures
        r == starts_run(*water_grid, x as int, y as int, d),
{
    if !has_edge(water_grid, x, y, d) {
        return false;
    }
    let continues_from = match d {
        Direction::Top => Direction::Left,
        Direction::Bottom => Direction::Left,
        Direction::Right => Direction::Top,
        Direction::Left => Direction::Top,
    };
    match neighbour(water_grid, x, y, continues_from) {
        Some((px, py)) => !has_edge(water_grid, px, py, d),
        None => true,
    }
}

/// The shadow-casting edges of the grid: every maximal straight run of
/// wall sides that face open space, in the order of their first cells (row
/// by row, and top, right, bottom, left within a cell); horizontal runs
/// extend to the right, vertical ones down.
pub fn find_shadow_edges(water_grid: &WaterGrid) -> (edges: Vec<Edge>)
    requires
        water_grid.wf(),
    ensures
        edges@ == grid_edges(*water_grid, water_grid.h()),
{
    let (width, height) = water_grid.size();
    let mut edges: Vec<Edge> = Vec::new();

    let mut y: usize = 0;
    while y < height
        invariant
            water_grid.wf(),
            width == water_grid.w(),
            height == water_grid.h(),
            y <= height,
            edges@ == grid_edges(*water_grid, y as int),
        decreases height - y,
    {
        let mut x: usize = 0;
        while x < width
            invariant
                water_grid.wf(),
                width == water_grid.w(),
                height == water_grid.h(),
                y < height,
                x <= width,
                edges@ == grid_edges(*water_grid, y as int) + row_edges(*water_grid, y as int, x as int),
            decreases width - x,
        {
            let ghost row_start = edges@;
            let mut i: usize = 0;
            while i < 4
                invariant
                    water_grid.wf(),
                    width == water_grid.w(),
                    height == water_grid.h(),
                    y < height,
                    x < width,
                    i <= 4,
                    edges@ == row_start + cell_edges(*water_grid, x as int, y as int, i as int),
                decreases 4 - i,
            {
                let edge_type = direction_exec(i);
                if starts_run_exec(water_grid, x, y, edge_type) {
                    let edge = walk_edge(water_grid, x, y, edge_type);
                    edges.push(edge);
                }
                i = i + 1;
            }
            proof {
                assert(row_edges(*water_grid, y as int, x + 1) == row_edges(*water_grid, y as int, x as int) + cell_edges(
                    *water_grid,
                    x as int,
                    y as int,
                    4,
                ));
                assert(edges@ =~= grid_edges(*water_grid, y as int) + row_edges(*water_grid, y as int, x + 1));
            }
            x = x + 1;
        }
        proof {
            assert(edges@ =~= grid_edges(*water_grid, y + 1));
        }
        y = y + 1;
    }
    edges
}

} // verus!
