//! Collisions of a submarine's hull with the rocks of the world and with
//! other submarines: which edge cells of the hull touch something solid.

use crate::objects::clamp;
use crate::rocks::{RockGrid, RockType};
use crate::state::Navigation;
use crate::water::{WaterGrid, tdiv};
use vstd::prelude::*;

verus! {

/// The remainder of a division rounding towards zero, as Rust's `%` on
/// `i32`s: it has the sign of `a`.
pub open spec fn trem(a: int, b: int) -> int {
    a - b * tdiv(a, b)
}

/// Whether the point `(inner_x, inner_y)` of a 16x16 rock cell is solid.
pub open spec fn rock_solid(t: RockType, inner_x: int, inner_y: int) -> bool {
    match t {
        RockType::Empty => false,
        RockType::WallFilled => true,
        RockType::WallLowerLeft => inner_x < inner_y,
        RockType::WallLowerRight => 15 - inner_x < inner_y,
        RockType::WallUpperLeft => 15 - inner_x > inner_y,
        RockType::WallUpperRight => inner_x > inner_y,
    }
}

/// The world coordinate, in submarine cells, of the hull cell at `sub` for a
/// submarine at `position` (in sixteenths of a cell).
pub open spec fn world_cell(position: i32, sub: usize) -> int {
    tdiv(position as int, 16) + sub
}

/// The rock cell (clamped into the world `size` cells wide) that a hull
/// cell lies in.
pub open spec fn rock_coord(position: i32, sub: usize, size: int) -> int {
    clamp(tdiv(world_cell(position, sub), 16), 0, size - 1)
}

/// The hull cell `(x, y)` touches a solid part of the rock it lies in, and
/// which rock cell that is.
pub open spec fn rock_collision(rocks: RockGrid, navigation: Navigation, edge: (usize, usize)) -> Option<(usize, usize)> {
    let rx = rock_coord(navigation.position.0, edge.0, rocks.w());
    let ry = rock_coord(navigation.position.1, edge.1, rocks.h());
    let inner_x = trem(world_cell(navigation.position.0, edge.0), 16);
    let inner_y = trem(world_cell(navigation.position.1, edge.1), 16);
    if rock_solid(rocks.cell_at(rx, ry).kind(), inner_x, inner_y) {
        Some((rx as usize, ry as usize))
    } else {
        None
    }
}

/// The rock cells hit and the hull cells that hit them, for the first `n`
/// edge cells, in order.
pub open spec fn rock_collisions(rocks: RockGrid, navigation: Navigation, edges: Seq<(usize, usize)>, n: nat) -> (
    Seq<(usize, usize)>,
    Seq<(usize, usize)>,
)
    decreases n,
{
    if n == 0 {
        (Seq::empty(), Seq::empty())
    } else {
        let before = rock_collisions(rocks, navigation, edges, (n - 1) as nat);
        match rock_collision(rocks, navigation, edges[n - 1]) {
            Some(rock) => (before.0.push(rock), before.1.push(edges[n - 1])),
            None => before,
        }
    }
}

/// The hull cells' world coordinates fit in an `i32`.
pub open spec fn edges_fit(edges: Seq<(usize, usize)>, navigation: Navigation) -> bool {
    forall|i: int|
        0 <= i < edges.len() ==> {
            let e = #[trigger] edges[i];
            &&& e.0 <= i32::MAX
            &&& e.1 <= i32::MAX
            &&& world_cell(navigation.position.0, e.0) <= i32::MAX
            &&& world_cell(navigation.position.1, e.1) <= i32::MAX
        }
}

fn clamp_i32(v: i32, lo: i32, hi: i32) -> (r: i32)
    requires
        lo <= hi,
    ensures
        r == clamp(v as int, lo as int, hi as int),
{
    if v < lo {
        lo
    } else if v > hi {
        hi
    } else {
        v
    }
}

/// Finds the edge cells of the hull that touch a solid part of the rocks
/// they lie in; each one adds the rock cell to `collisions` and the hull
/// cell to `sub_collisions`.
pub fn update_rock_collisions(
    water_grid: &WaterGrid,
    rock_grid: &RockGrid,
    navigation: &Navigation,
    collisions: &mut Vec<(usize, usize)>,
    sub_collisions: &mut Vec<(usize, usize)>,
)
    requires
        rock_grid.wf(),
        1 <= rock_grid.w() <= i32::MAX,
        1 <= rock_grid.h() <= i32::MAX,
        edges_fit(water_grid.spec_edges(), *navigation),
    ensures
        ({
            let r = rock_collisions(*rock_grid, *navigation, water_grid.spec_edges(), water_grid.spec_edges().len());
            &&& final(collisions)@ == old(collisions)@ + r.0
            &&& final(sub_collisions)@ == old(sub_collisions)@ + r.1
        }),
{
    let world_size = rock_grid.size();
    let edges = water_grid.edges();
    let ghost start = (collisions@, sub_collisions@);

    let mut i: usize = 0;
    while i < edges.len()
        invariant
            rock_grid.wf(),
            1 <= rock_grid.w() <= i32::MAX,
            1 <= rock_grid.h() <= i32::MAX,
            world_size.0 == rock_grid.w(),
            world_size.1 == rock_grid.h(),
            edges@ == water_grid.spec_edges(),
            edges_fit(edges@, *navigation),
            i <= edges@.len(),
            start == (old(collisions)@, old(sub_collisions)@),
            ({
                let r = rock_collisions(*rock_grid, *navigation, edges@, i as nat);
                &&& collisions@ == start.0 + r.0
                &&& sub_collisions@ == start.1 + r.1
            }),
        decreases edges@.len() - i,
    {
        let (sub_x, sub_y) = edges[i];
        proof {
            assert(edges_fit(edges@, *navigation) ==> world_cell(navigation.position.0, edges@[i as int].0) <= i32::MAX);
        }
        let world_x = navigation.position.0 / 16 + sub_x as i32;
        let world_y = navigation.position.1 / 16 + sub_y as i32;
        let rock_x = clamp_i32(world_x / 16, 0, world_size.0 as i32 - 1) as usize;
        let rock_y = clamp_i32(world_y / 16, 0, world_size.1 as i32 - 1) as usize;

        let rock_cell = rock_grid.cell(rock_x, rock_y);
        let ghost before = (collisions@, sub_collisions@);

        if rock_cell.is_wall() {
            // The point inside the rock cell where the submarine cell is
            let inner_x = world_x % 16;
            let inner_y = world_y % 16;

            let collided = match rock_cell.rock_type() {
                RockType::Empty => false,
                RockType::WallFilled => true,
                RockType::WallLowerLeft => inner_x < inner_y,
                RockType::WallLowerRight => (15 - inner_x) < inner_y,
                RockType::WallUpperLeft => (15 - inner_x) > inner_y,
                RockType::WallUpperRight => inner_x > inner_y,
            };

            if collided {
                collisions.push((rock_x, rock_y));
                sub_collisions.push((sub_x, sub_y));
            }
        }
        proof {
            let r = rock_collisions(*rock_grid, *navigation, edges@, i as nat);
            assert(edges@.subrange(0, i as int + 1).drop_last() == edges@.subrange(0, i as int));
            if rock_collision(*rock_grid, *navigation, edges@[i as int]) is Some {
                assert(collisions@ == start.0 + r.0.push(rock_collision(*rock_grid, *navigation, edges@[i as int])->0));
                assert(sub_collisions@ == start.1 + r.1.push(edges@[i as int]));
            } else {
                assert(collisions@ == before.0);
            }
        }
        i = i + 1;
    }
}

/// Two submarines' positions are close enough for their difference to fit.
pub open spec fn offset_fits(navigation1: Navigation, navigation2: Navigation) -> bool {
    &&& i32::MIN <= navigation1.position.0 - navigation2.position.0 <= i32::MAX
    &&& i32::MIN <= navigation1.position.1 - navigation2.position.1 <= i32::MAX
}

/// Where the hull cell `(x, y)` of the first submarine lies on the second
/// one's grid.
pub open spec fn other_cell(navigation1: Navigation, navigation2: Navigation, edge: (usize, usize)) -> (int, int) {
    (
        edge.0 + tdiv(navigation1.position.0 - navigation2.position.0, 16),
        edge.1 + tdiv(navigation1.position.1 - navigation2.position.1, 16),
    )
}

/// The edge cells of the first hull that lie on a cell of the second grid
/// that is not sea, for the first `n` edges, in order.
pub open spec fn hull_collisions(
    grid2: WaterGrid,
    navigation1: Navigation,
    navigation2: Navigation,
    edges: Seq<(usize, usize)>,
    n: nat,
) -> Seq<(usize, usize)>
    decreases n,
{
    if n == 0 {
        Seq::empty()
    } else {
        let before = hull_collisions(grid2, navigation1, navigation2, edges, (n - 1) as nat);
        let p = other_cell(navigation1, navigation2, edges[n - 1]);
        if grid2.in_bounds(p.0, p.1) && !grid2.cell_at(p.0, p.1).spec_is_sea() {
            before.push(edges[n - 1])
        } else {
            before
        }
    }
}

/// The edge cells' positions on the other grid fit in an `i32`.
pub open spec fn hull_edges_fit(edges: Seq<(usize, usize)>, navigation1: Navigation, navigation2: Navigation) -> bool {
    forall|i: int|
        0 <= i < edges.len() ==> {
            let e = #[trigger] edges[i];
            let p = other_cell(navigation1, navigation2, e);
            &&& e.0 <= i32::MAX
            &&& e.1 <= i32::MAX
            &&& i32::MIN <= p.0 <= i32::MAX
            &&& i32::MIN <= p.1 <= i32::MAX
        }
}

/// Finds the edge cells of the first hull that overlap a part of the second
/// submarine that is not sea, and adds them to `collisions`.
pub fn update_submarine_collisions(
    grid1: &WaterGrid,
    grid2: &WaterGrid,
    navigation1: &Navigation,
    navigation2: &Navigation,
    collisions: &mut Vec<(usize, usize)>,
)
    requires
        grid2.wf(),
        grid2.w() <= i32::MAX,
        grid2.h() <= i32::MAX,
        offset_fits(*navigation1, *navigation2),
        hull_edges_fit(grid1.spec_edges(), *navigation1, *navigation2),
    ensures
        final(collisions)@ == old(collisions)@ + hull_collisions(
            *grid2,
            *navigation1,
            *navigation2,
            grid1.spec_edges(),
            grid1.spec_edges().len(),
        ),
{
    let edges = grid1.edges();
    let ghost start = collisions@;
    let (width2, height2) = grid2.size();
    let mut i: usize = 0;
    while i < edges.len()
        invariant
            grid2.wf(),
            width2 == grid2.w(),
            height2 == grid2.h(),
            grid2.w() <= i32::MAX,
            grid2.h() <= i32::MAX,
            offset_fits(*navigation1, *navigation2),
            edges@ == grid1.spec_edges(),
            hull_edges_fit(edges@, *navigation1, *navigation2),
            i <= edges@.len(),
            start == old(collisions)@,
            collisions@ == start + hull_collisions(*grid2, *navigation1, *navigation2, edges@, i as nat),
        decreases edges@.len() - i,
    {
        let (sub1_x, sub1_y) = edges[i];
        proof {
            assert(hull_edges_fit(edges@, *navigation1, *navigation2) ==> i32::MIN <= other_cell(
                *navigation1,
                *navigation2,
                edges@[i as int],
            ).0 <= i32::MAX);
        }
        let sub2_x = sub1_x as i32 + (navigation1.position.0 - navigation2.position.0) / 16;
        let sub2_y = sub1_y as i32 + (navigation1.position.1 - navigation2.position.1) / 16;

        if !(sub2_x < 0 || sub2_y < 0 || sub2_x >= width2 as i32 || sub2_y >= height2 as i32) {
            let cell2 = grid2.cell(sub2_x as usize, sub2_y as usize);

            if !cell2.is_sea() {
                collisions.push((sub1_x, sub1_y));
            }
        }
        i = i + 1;
    }
}

} // verus!
