//! What the objects of a submarine do on every physics update tick: doors
//! open and close the hull, pumps move water, reactors and batteries feed
//! the wires, engines and the navigation controller steer.

use crate::grid::{cell_index, lemma_cell_coordinates, lemma_cell_index_bounds, lemma_index_coordinates};
use crate::objects::{
    DoorState, Object, ObjectType, clamp, compute_navigation, navigation_computable, navigation_control,
};
use crate::state::Navigation;
use crate::water::{CellType, WaterCell, WaterGrid, pumped_level, tdiv};
use crate::wires::{
    StoredSignal, WireBundle, WireCell, WireColor, WireGrid, WireValue, cell_power_sent, first_logic,
    first_power, lemma_cell_view_len, logic_sent, power_sent, MAX_UPDATE_SIGNAL,
};
use vstd::prelude::*;

verus! {

/// How the cells of an object's rectangle of the water grid are set.
#[derive(Clone, Copy, PartialEq, Eq, Structural, Debug)]
pub enum WaterRule {
    /// A hatch: columns `open_lo..open_hi` (counted from the object's left
    /// edge) are open, the others closed by walls.
    Door { open_lo: u32, open_hi: u32 },
    /// A door: the lowest `open_cells` cells of its column are open.
    VerticalDoor { open_cells: u32 },
    /// A pump moves `amount` of water into (or out of) each cell of a
    /// `size` by `size` square.
    Pump { amount: i32, size: u32 },
    /// A docking connector reaching up to row `top_y`.
    DockTop { top_y: u32, connected: bool },
    /// A docking connector reaching down to row `bottom_y`.
    DockBottom { bottom_y: u32, connected: bool },
}

/// What a water cell should become for a door: open cells become (empty)
/// inside unless they already are, closed cells become walls unless they
/// already are.
pub open spec fn opened(c: WaterCell, open: bool) -> WaterCell {
    if open {
        if c.spec_is_inside() {
            c
        } else {
            WaterCell::spec_empty_inside()
        }
    } else {
        if c.spec_is_wall() {
            c
        } else {
            c.with_kind(CellType::Wall { wall_reflect: [0, 0, 0, 0] })
        }
    }
}

pub open spec fn made_sea(c: WaterCell) -> WaterCell {
    if c.spec_is_sea() {
        c
    } else {
        c.with_kind(CellType::Sea)
    }
}

/// The kind of cell a docking connector wants at offset `(x, y)` of its
/// rectangle (counted from the object's corner): 0 sea, 1 wall, 2 inside.
pub open spec fn dock_top_kind(x: int, y: int, top_y: int, connected: bool) -> int {
    let above = y < top_y;
    let top_wall = y == top_y;
    let side_wall = x == 4 || x == 17;
    let mouth = top_wall && y == 2;
    if above || (mouth && !connected) {
        0
    } else if mouth || top_wall || side_wall {
        1
    } else {
        2
    }
}

pub open spec fn dock_bottom_kind(x: int, y: int, bottom_y: int, connected: bool) -> int {
    let below = y > bottom_y;
    let bottom_wall = y == bottom_y;
    let side_wall = x == 4 || x == 17;
    let mouth = bottom_wall && y == 7;
    if below || (mouth && !connected) {
        0
    } else if mouth || bottom_wall || side_wall {
        1
    } else {
        2
    }
}

pub open spec fn set_kind(c: WaterCell, kind: int) -> WaterCell {
    if kind == 0 {
        made_sea(c)
    } else if kind == 1 {
        opened(c, false)
    } else {
        opened(c, true)
    }
}

/// Where a rule's rectangle starts, relative to the object, and its size.
pub open spec fn rule_rect(rule: WaterRule) -> (int, int, int, int) {
    match rule {
        WaterRule::Door { .. } => (5, 3, 13, 3),
        WaterRule::VerticalDoor { .. } => (3, 5, 1, 12),
        WaterRule::Pump { size, .. } => (0, 0, size as int, size as int),
        WaterRule::DockTop { .. } => (4, 2, 14, 5),
        WaterRule::DockBottom { .. } => (4, 3, 14, 5),
    }
}

/// The kind of cell (0 sea, 1 wall, 2 inside) that a rule other than a
/// pump wants at offset `(x, y)` of the object.
pub open spec fn wanted_kind(rule: WaterRule, x: int, y: int) -> int {
    match rule {
        WaterRule::Door { open_lo, open_hi } => if open_lo <= x < open_hi {
            2
        } else {
            1
        },
        WaterRule::VerticalDoor { open_cells } => if 17 - y <= open_cells {
            2
        } else {
            1
        },
        WaterRule::Pump { .. } => 2,
        WaterRule::DockTop { top_y, connected } => dock_top_kind(x, y, top_y as int, connected),
        WaterRule::DockBottom { bottom_y, connected } => dock_bottom_kind(x, y, bottom_y as int, connected),
    }
}

/// The cell at offset `(x, y)` of the object (not of the rectangle) after
/// the rule is applied to it.
pub open spec fn rule_cell(rule: WaterRule, x: int, y: int, c: WaterCell) -> WaterCell {
    match rule {
        WaterRule::Pump { amount, .. } => if c.spec_is_inside() {
            c.with_level(pumped_level(c.spec_level(), amount as int) as u32).replanned()
        } else {
            c
        },
        _ => set_kind(c, wanted_kind(rule, x, y)),
    }
}

/// Whether applying the rule to the cell turns it into another kind of cell.
pub open spec fn rule_converts(rule: WaterRule, x: int, y: int, c: WaterCell) -> bool {
    match rule {
        WaterRule::Pump { .. } => false,
        _ => {
            let kind = wanted_kind(rule, x, y);
            (kind == 0 && !c.spec_is_sea()) || (kind == 1 && !c.spec_is_wall()) || (kind == 2
                && !c.spec_is_inside())
        },
    }
}

/// A pump's amount can be pumped.
pub open spec fn rule_ok(rule: WaterRule) -> bool {
    match rule {
        WaterRule::Pump { amount, size } => amount != i32::MIN && size <= 4,
        _ => true,
    }
}

/// Position `k` of a grid `width` wide lies in the rule's rectangle for an
/// object at `(px, py)`.
pub open spec fn in_rule_rect(rule: WaterRule, width: int, px: int, py: int, k: int) -> bool {
    let r = rule_rect(rule);
    let x = k % width - px;
    let y = k / width - py;
    r.0 <= x < r.0 + r.2 && r.1 <= y < r.1 + r.3
}

/// The water cells after the rule is applied to its rectangle.
pub open spec fn rule_applied(cells: Seq<WaterCell>, width: int, px: int, py: int, rule: WaterRule) -> Seq<WaterCell> {
    Seq::new(
        cells.len(),
        |k: int|
            if in_rule_rect(rule, width, px, py, k) {
                rule_cell(rule, k % width - px, k / width - py, cells[k])
            } else {
                cells[k]
            },
    )
}

/// Some cell of the rectangle changes kind.
pub open spec fn rule_changes_walls(cells: Seq<WaterCell>, width: int, px: int, py: int, rule: WaterRule) -> bool {
    exists|k: int|
        0 <= k < cells.len() && in_rule_rect(rule, width, px, py, k) && #[trigger] rule_converts(
            rule,
            k % width - px,
            k / width - py,
            cells[k],
        )
}

/// The rule's rectangle lies inside the grid.
pub open spec fn rule_fits(rule: WaterRule, width: int, height: int, px: int, py: int) -> bool {
    let r = rule_rect(rule);
    0 <= px && 0 <= py && px + r.0 + r.2 <= width && py + r.1 + r.3 <= height
}

fn rule_rect_exec(rule: WaterRule) -> (r: (usize, usize, usize, usize))
    ensures
        r.0 == rule_rect(rule).0,
        r.1 == rule_rect(rule).1,
        r.2 == rule_rect(rule).2,
        r.3 == rule_rect(rule).3,
{
    match rule {
        WaterRule::Door { .. } => (5, 3, 13, 3),
        WaterRule::VerticalDoor { .. } => (3, 5, 1, 12),
        WaterRule::Pump { size, .. } => (0, 0, size as usize, size as usize),
        WaterRule::DockTop { .. } => (4, 2, 14, 5),
        WaterRule::DockBottom { .. } => (4, 3, 14, 5),
    }
}

/// Applies the rule to one cell; says whether the cell changed kind.
fn apply_rule_to_cell(cell: &mut WaterCell, rule: WaterRule, x: usize, y: usize) -> (changed: bool)
    requires
        old(cell).velocity_ok(),
        rule_ok(rule),
        x < 64,
        y < 64,
    ensures
        *final(cell) == rule_cell(rule, x as int, y as int, *old(cell)),
        changed == rule_converts(rule, x as int, y as int, *old(cell)),
        final(cell).velocity_ok(),
{
    let ghost start = *cell;
    proof {
        WaterCell::lemma_transfers_len(start);
        WaterCell::lemma_make(CellType::Wall { wall_reflect: [0, 0, 0, 0] }, start.transfers());
        WaterCell::lemma_make(CellType::Sea, start.transfers());
        WaterCell::lemma_make(
            CellType::Inside { level: 0, velocity: (0, 0), planned_remaining: 0 },
            seq![0u32, 0u32, 0u32, 0u32],
        );
    }
    let kind: u8 = match rule {
        WaterRule::Door { open_lo, open_hi } => if open_lo <= x as u32 && (x as u32) < open_hi {
            2
        } else {
            1
        },
        WaterRule::VerticalDoor { open_cells } => if y > 17 || 17 - (y as u32) <= open_cells {
            2
        } else {
            1
        },
        WaterRule::Pump { amount, .. } => {
            cell.add_level(amount);
            proof {
                let c1 = start.with_level(pumped_level(start.spec_level(), amount as int) as u32);
                WaterCell::lemma_with_level_keeps(start, pumped_level(start.spec_level(), amount as int) as u32);
                WaterCell::lemma_replanned_keeps(c1);
            }
            return false;
        },
        WaterRule::DockTop { top_y, connected } => {
            let y32 = y as u32;
            let above = y32 < top_y;
            let top_wall = y32 == top_y;
            let side_wall = x == 4 || x == 17;
            let mouth = top_wall && y32 == 2;
            if above || (mouth && !connected) {
                0
            } else if mouth || top_wall || side_wall {
                1
            } else {
                2
            }
        },
        WaterRule::DockBottom { bottom_y, connected } => {
            let y32 = y as u32;
            let below = y32 > bottom_y;
            let bottom_wall = y32 == bottom_y;
            let side_wall = x == 4 || x == 17;
            let mouth = bottom_wall && y32 == 7;
            if below || (mouth && !connected) {
                0
            } else if mouth || bottom_wall || side_wall {
                1
            } else {
                2
            }
        },
    };
    if kind == 0 {
        if !cell.is_sea() {
            cell.make_sea();
            return true;
        }
    } else if kind == 1 {
        if !cell.is_wall() {
            cell.make_wall();
            return true;
        }
    } else {
        if !cell.is_inside() {
            cell.make_inside();
            return true;
        }
    }
    false
}

} // verus!

verus! {

/// Applies the rule to the grid cell `(x, y)`, which is at offset
/// `(ox, oy)` of its object.
fn apply_rule_at(water: &mut WaterGrid, x: usize, y: usize, rule: WaterRule, ox: usize, oy: usize) -> (changed: bool)
    requires
        old(water).wf(),
        old(water).in_bounds(x as int, y as int),
        old(water).velocities_ok(),
        rule_ok(rule),
        ox < 64,
        oy < 64,
    ensures
        final(water).wf(),
        final(water).w() == old(water).w(),
        final(water).h() == old(water).h(),
        final(water).spec_total_water() == old(water).spec_total_water(),
        final(water).spec_edges() == old(water).spec_edges(),
        final(water).velocities_ok(),
        final(water).cells() == old(water).cells().update(
            cell_index(old(water).w(), x as int, y as int),
            rule_cell(rule, ox as int, oy as int, old(water).cell_at(x as int, y as int)),
        ),
        changed == rule_converts(rule, ox as int, oy as int, old(water).cell_at(x as int, y as int)),
{
    let ghost before = *water;
    proof {
        lemma_cell_index_bounds(water.w(), water.h(), x as int, y as int);
        water.lemma_wf();
        assert(water.cell_at(x as int, y as int).velocity_ok());
    }
    let cell = water.cell_mut(x, y);
    let changed = apply_rule_to_cell(cell, rule, ox, oy);
    proof {
        assert forall|k: int| 0 <= k < water.cells().len() implies (#[trigger] water.cells()[k]).velocity_ok() by {
            if k != cell_index(before.w(), x as int, y as int) {
                assert(water.cells()[k] == before.cells()[k]);
            }
        }
    }
    changed
}

} // verus!

verus! {

/// The rectangle cell at position `k` comes before row `y`, or in row `y`
/// before column `x` (both counted from the object).
pub open spec fn done_before(width: int, px: int, py: int, k: int, x: int, y: int) -> bool {
    let kx = k % width - px;
    let ky = k / width - py;
    ky < y || (ky == y && kx < x)
}

/// Moving the scan one column on adds exactly the cell at that column.
proof fn lemma_only_new(w: int, h: int, px: int, py: int, x: int, y: int, k: int)
    requires
        0 <= k < w * h,
        0 <= w,
        0 <= h,
        done_before(w, px, py, k, x + 1, y),
        !done_before(w, px, py, k, x, y),
    ensures
        k == cell_index(w, px + x, py + y),
{
    let xy = lemma_cell_coordinates(w, h, k);
    lemma_index_coordinates(w, xy.0, xy.1);
}

/// Applies the rule to every cell of its rectangle for an object at
/// `(px, py)`; says whether any cell changed kind.
pub fn apply_water_rule(water: &mut WaterGrid, px: usize, py: usize, rule: WaterRule) -> (changed: bool)
    requires
        old(water).wf(),
        old(water).velocities_ok(),
        rule_ok(rule),
        rule_fits(rule, old(water).w(), old(water).h(), px as int, py as int),
    ensures
        final(water).wf(),
        final(water).w() == old(water).w(),
        final(water).h() == old(water).h(),
        final(water).spec_total_water() == old(water).spec_total_water(),
        final(water).spec_edges() == old(water).spec_edges(),
        final(water).velocities_ok(),
        final(water).cells() == rule_applied(old(water).cells(), old(water).w(), px as int, py as int, rule),
        changed == rule_changes_walls(old(water).cells(), old(water).w(), px as int, py as int, rule),
{
    let ghost g0 = *water;
    let ghost w = g0.w();
    let (x0, y0, rw, rh) = rule_rect_exec(rule);
    let mut changed = false;
    proof {
        g0.lemma_wf();
    }
    let mut y = y0;
    while y < y0 + rh
        invariant
            g0 == *old(water),
            g0.wf(),
            w == g0.w(),
            water.wf(),
            water.w() == g0.w(),
            water.h() == g0.h(),
            water.spec_total_water() == g0.spec_total_water(),
            water.spec_edges() == g0.spec_edges(),
            water.velocities_ok(),
            rule_ok(rule),
            rule_fits(rule, g0.w(), g0.h(), px as int, py as int),
            x0 == rule_rect(rule).0,
            y0 == rule_rect(rule).1,
            rw == rule_rect(rule).2,
            rh == rule_rect(rule).3,
            y0 <= y <= y0 + rh,
            water.cells().len() == g0.cells().len(),
            forall|k: int|
                0 <= k < g0.cells().len() ==> #[trigger] water.cells()[k] == if in_rule_rect(rule, w, px as int, py as int, k)
                    && done_before(w, px as int, py as int, k, 0, y as int) {
                    rule_cell(rule, k % w - px, k / w - py, g0.cells()[k])
                } else {
                    g0.cells()[k]
                },
            changed == exists|k: int|
                0 <= k < g0.cells().len() && in_rule_rect(rule, w, px as int, py as int, k) && done_before(
                    w,
                    px as int,
                    py as int,
                    k,
                    0,
                    y as int,
                ) && #[trigger] rule_converts(rule, k % w - px, k / w - py, g0.cells()[k]),
        decreases y0 + rh - y,
    {
        let mut x = x0;
        while x < x0 + rw
            invariant
                g0 == *old(water),
                g0.wf(),
                w == g0.w(),
                water.wf(),
                water.w() == g0.w(),
                water.h() == g0.h(),
                water.spec_total_water() == g0.spec_total_water(),
                water.spec_edges() == g0.spec_edges(),
                water.velocities_ok(),
                rule_ok(rule),
                rule_fits(rule, g0.w(), g0.h(), px as int, py as int),
                x0 == rule_rect(rule).0,
                y0 == rule_rect(rule).1,
                rw == rule_rect(rule).2,
                rh == rule_rect(rule).3,
                y0 <= y < y0 + rh,
                x0 <= x <= x0 + rw,
                water.cells().len() == g0.cells().len(),
                forall|k: int|
                    0 <= k < g0.cells().len() ==> #[trigger] water.cells()[k] == if in_rule_rect(rule, w, px as int, py as int, k)
                        && done_before(w, px as int, py as int, k, x as int, y as int) {
                        rule_cell(rule, k % w - px, k / w - py, g0.cells()[k])
                    } else {
                        g0.cells()[k]
                    },
                changed == exists|k: int|
                    0 <= k < g0.cells().len() && in_rule_rect(rule, w, px as int, py as int, k) && done_before(
                        w,
                        px as int,
                        py as int,
                        k,
                        x as int,
                        y as int,
                    ) && #[trigger] rule_converts(rule, k % w - px, k / w - py, g0.cells()[k]),
            decreases x0 + rw - x,
        {
            let ghost before = *water;
            let ghost k0 = cell_index(w, (px + x) as int, (py + y) as int);
            proof {
                g0.lemma_wf();
                lemma_cell_index_bounds(w, g0.h(), (px + x) as int, (py + y) as int);
                lemma_index_coordinates(w, (px + x) as int, (py + y) as int);
                assert(water.cell_at((px + x) as int, (py + y) as int) == g0.cells()[k0]);
            }
            let c = apply_rule_at(water, px + x, py + y, rule, x, y);
            proof {
                assert forall|k: int|
                    0 <= k < g0.cells().len() implies #[trigger] water.cells()[k] == if in_rule_rect(rule, w, px as int, py as int, k)
                        && done_before(w, px as int, py as int, k, x + 1, y as int) {
                        rule_cell(rule, k % w - px, k / w - py, g0.cells()[k])
                    } else {
                        g0.cells()[k]
                    } by {
                    if k != k0 {
                        assert(water.cells()[k] == before.cells()[k]);
                        if in_rule_rect(rule, w, px as int, py as int, k) && done_before(w, px as int, py as int, k, x + 1, y as int) {
                            if !done_before(w, px as int, py as int, k, x as int, y as int) {
                                lemma_only_new(w, g0.h(), px as int, py as int, x as int, y as int, k);
                            }
                        }
                    }
                }
            }
            if c {
                changed = true;
            }
            proof {
                assert(k0 % w == px + x && k0 / w == py + y);
                if changed {
                    if c {
                        assert(in_rule_rect(rule, w, px as int, py as int, k0));
                        assert(done_before(w, px as int, py as int, k0, x + 1, y as int));
                        assert(rule_converts(rule, k0 % w - px, k0 / w - py, g0.cells()[k0]));
                    } else {
                        let kw = choose|k: int|
                            0 <= k < g0.cells().len() && in_rule_rect(rule, w, px as int, py as int, k) && done_before(
                                w,
                                px as int,
                                py as int,
                                k,
                                x as int,
                                y as int,
                            ) && #[trigger] rule_converts(rule, k % w - px, k / w - py, g0.cells()[k]);
                        assert(done_before(w, px as int, py as int, kw, x + 1, y as int));
                    }
                } else {
                    assert forall|k: int|
                        0 <= k < g0.cells().len() && in_rule_rect(rule, w, px as int, py as int, k) && done_before(
                            w,
                            px as int,
                            py as int,
                            k,
                            x + 1,
                            y as int,
                        ) implies !#[trigger] rule_converts(rule, k % w - px, k / w - py, g0.cells()[k]) by {
                        if k != k0 && !done_before(w, px as int, py as int, k, x as int, y as int) {
                            lemma_only_new(w, g0.h(), px as int, py as int, x as int, y as int, k);
                        }
                    }
                }
            }
            x = x + 1;
        }
        y = y + 1;
    }
    changed
}

} // verus!

verus! {

/// The values of each wire cell, in row-major order.
pub open spec fn wire_views(g: WireGrid) -> Seq<Seq<WireValue>> {
    g.cells().map_values(|c: WireCell| c@)
}

/// The values of a cell after a logic signal is driven into every wire that
/// ends in it.
pub open spec fn logic_sent_all(vals: Seq<WireValue>, value: i8) -> Seq<WireValue> {
    Seq::new(5, |i: int| logic_sent(vals[i], value))
}

/// What the objects of a submarine act on and change: the water cells, the
/// values of the wire cells, the bundle inputs and outputs, the navigation
/// state, and whether walls were moved.
pub type SubView = (Seq<WaterCell>, Seq<Seq<WireValue>>, Seq<WireBundle>, Seq<WireBundle>, Navigation, bool);

pub open spec fn sub_view(water: WaterGrid, wire: WireGrid, navigation: Navigation, walls: bool) -> SubView {
    (water.cells(), wire_views(wire), wire.inputs(), wire.outputs(), navigation, walls)
}

/// The wire values at `(x, y)` of a grid `width` cells wide.
pub open spec fn wire_at(s: SubView, width: int, x: int, y: int) -> Seq<WireValue> {
    s.1[cell_index(width, x, y)]
}

pub open spec fn with_wire(s: SubView, width: int, x: int, y: int, vals: Seq<WireValue>) -> SubView {
    (s.0, s.1.update(cell_index(width, x, y), vals), s.2, s.3, s.4, s.5)
}

/// The logic value arriving at `(x, y)`.
pub open spec fn logic_at(s: SubView, width: int, x: int, y: int) -> Option<i8> {
    first_logic(wire_at(s, width, x, y), 0)
}

pub open spec fn power_at(s: SubView, width: int, x: int, y: int) -> Option<u8> {
    first_power(wire_at(s, width, x, y), 0)
}

/// At least `minimum` power arrives at `(x, y)`.
pub open spec fn powered_at(s: SubView, width: int, x: int, y: int, minimum: u8) -> bool {
    match power_at(s, width, x, y) {
        Some(value) => value >= minimum,
        None => false,
    }
}

pub open spec fn send_logic_at(s: SubView, width: int, x: int, y: int, value: i8) -> SubView {
    with_wire(s, width, x, y, logic_sent_all(wire_at(s, width, x, y), value))
}

pub open spec fn send_power_at(s: SubView, width: int, x: int, y: int, value: u8) -> SubView {
    with_wire(s, width, x, y, cell_power_sent(wire_at(s, width, x, y), value))
}

/// The bundle that the bundle wire at `(x, y)` belongs to.
pub open spec fn bundle_at(s: SubView, width: int, x: int, y: int) -> Option<u8> {
    match wire_at(s, width, x, y)[0] {
        WireValue::Bundle { bundle_id } => Some(bundle_id),
        _ => None,
    }
}

/// The grids and the view agree, and the grids are well formed.
pub open spec fn grids_ok(water: WaterGrid, wire: WireGrid) -> bool {
    &&& water.wf()
    &&& water.velocities_ok()
    &&& wire.wf()
}

/// The parts of the grids that objects never change.
pub open spec fn grids_kept(water: WaterGrid, wire: WireGrid, water0: WaterGrid, wire0: WireGrid) -> bool {
    &&& water.w() == water0.w()
    &&& water.h() == water0.h()
    &&& water.spec_total_water() == water0.spec_total_water()
    &&& water.spec_edges() == water0.spec_edges()
    &&& wire.w() == wire0.w()
    &&& wire.h() == wire0.h()
    &&& forall|c: int| #[trigger] wire.wires(c) == wire0.wires(c)
    &&& wire.inputs().len() == wire0.inputs().len()
    &&& wire.outputs().len() == wire0.outputs().len()
}

proof fn lemma_views_update(g0: WireGrid, g1: WireGrid, k: int, c: WireCell)
    requires
        0 <= k < g0.cells().len(),
        g1.cells() == g0.cells().update(k, c),
    ensures
        wire_views(g1) == wire_views(g0).update(k, c@),
{
    assert(wire_views(g1) =~= wire_views(g0).update(k, c@));
}

fn wire_logic_at(wire: &WireGrid, x: usize, y: usize) -> (r: Option<i8>)
    requires
        wire.wf(),
        wire.in_bounds(x as int, y as int),
    ensures
        r == first_logic(wire_views(*wire)[cell_index(wire.w(), x as int, y as int)], 0),
{
    proof {
        wire.lemma_wf();
        lemma_cell_index_bounds(wire.w(), wire.h(), x as int, y as int);
    }
    wire.cell(x, y).receive_logic()
}

fn wire_power_at(wire: &WireGrid, x: usize, y: usize) -> (r: Option<u8>)
    requires
        wire.wf(),
        wire.in_bounds(x as int, y as int),
    ensures
        r == first_power(wire_views(*wire)[cell_index(wire.w(), x as int, y as int)], 0),
{
    proof {
        wire.lemma_wf();
        lemma_cell_index_bounds(wire.w(), wire.h(), x as int, y as int);
    }
    wire.cell(x, y).receive_power()
}

fn wire_powered_at(wire: &WireGrid, x: usize, y: usize, minimum: u8) -> (r: bool)
    requires
        wire.wf(),
        wire.in_bounds(x as int, y as int),
    ensures
        r == match first_power(wire_views(*wire)[cell_index(wire.w(), x as int, y as int)], 0) {
            Some(value) => value >= minimum,
            None => false,
        },
{
    proof {
        wire.lemma_wf();
        lemma_cell_index_bounds(wire.w(), wire.h(), x as int, y as int);
    }
    wire.cell(x, y).minimum_power(minimum)
}

fn wire_bundle_at(wire: &WireGrid, x: usize, y: usize) -> (r: Option<u8>)
    requires
        wire.wf(),
        wire.in_bounds(x as int, y as int),
    ensures
        r == match wire_views(*wire)[cell_index(wire.w(), x as int, y as int)][0] {
            WireValue::Bundle { bundle_id } => Some(bundle_id),
            _ => None,
        },
{
    proof {
        wire.lemma_wf();
        lemma_cell_index_bounds(wire.w(), wire.h(), x as int, y as int);
    }
    wire.cell(x, y).bundle_id()
}

/// Replacing one cell by one whose signals are bounded keeps every signal
/// bounded.
proof fn lemma_signals_bounded_after(g0: WireGrid, g1: WireGrid, k: int)
    requires
        g0.signals_bounded(),
        g1.cells().len() == g0.cells().len(),
        0 <= k < g0.cells().len(),
        forall|j: int| 0 <= j < g0.cells().len() && j != k ==> #[trigger] g1.cells()[j] == g0.cells()[j],
        forall|c: int| 0 <= c < 5 ==> (#[trigger] g1.cells()[k]@[c]).signal() <= MAX_UPDATE_SIGNAL,
    ensures
        g1.signals_bounded(),
{
    assert forall|j: int, c: int| 0 <= j < g1.cells().len() && 0 <= c < 5 implies (
    #[trigger] g1.cells()[j]@[c]).signal() <= MAX_UPDATE_SIGNAL by {
        if j != k {
            assert(g1.cells()[j] == g0.cells()[j]);
        }
    }
}

fn wire_send_logic(wire: &mut WireGrid, x: usize, y: usize, value: i8)
    requires
        old(wire).wf(),
        old(wire).in_bounds(x as int, y as int),
    ensures
        final(wire).wf(),
        final(wire).w() == old(wire).w(),
        final(wire).h() == old(wire).h(),
        forall|c: int| #[trigger] final(wire).wires(c) == old(wire).wires(c),
        final(wire).inputs() == old(wire).inputs(),
        final(wire).outputs() == old(wire).outputs(),
        wire_views(*final(wire)) == wire_views(*old(wire)).update(
            cell_index(old(wire).w(), x as int, y as int),
            logic_sent_all(wire_views(*old(wire))[cell_index(old(wire).w(), x as int, y as int)], value),
        ),
        old(wire).signals_bounded() ==> final(wire).signals_bounded(),
{
    let ghost g0 = *wire;
    proof {
        wire.lemma_wf();
        lemma_cell_index_bounds(wire.w(), wire.h(), x as int, y as int);
    }
    let cell = wire.cell_mut(x, y);
    cell.send_logic(value);
    proof {
        let k = cell_index(g0.w(), x as int, y as int);
        lemma_views_update(g0, *wire, k, wire.cells()[k]);
        if g0.signals_bounded() {
            assert forall|c: int| 0 <= c < 5 implies (#[trigger] wire.cells()[k]@[c]).signal() <= MAX_UPDATE_SIGNAL by {
                assert(wire_views(*wire)[k] == wire.cells()[k]@);
                assert(wire_views(g0)[k] == g0.cells()[k]@);
                assert(g0.cells()[k]@[c].signal() <= MAX_UPDATE_SIGNAL);
            }
            lemma_signals_bounded_after(g0, *wire, k);
        }
    }
}

fn wire_send_power(wire: &mut WireGrid, x: usize, y: usize, value: u8)
    requires
        old(wire).wf(),
        old(wire).in_bounds(x as int, y as int),
    ensures
        final(wire).wf(),
        final(wire).w() == old(wire).w(),
        final(wire).h() == old(wire).h(),
        forall|c: int| #[trigger] final(wire).wires(c) == old(wire).wires(c),
        final(wire).inputs() == old(wire).inputs(),
        final(wire).outputs() == old(wire).outputs(),
        wire_views(*final(wire)) == wire_views(*old(wire)).update(
            cell_index(old(wire).w(), x as int, y as int),
            cell_power_sent(wire_views(*old(wire))[cell_index(old(wire).w(), x as int, y as int)], value),
        ),
        old(wire).signals_bounded() ==> final(wire).signals_bounded(),
{
    let ghost g0 = *wire;
    proof {
        wire.lemma_wf();
        lemma_cell_index_bounds(wire.w(), wire.h(), x as int, y as int);
    }
    let cell = wire.cell_mut(x, y);
    cell.send_power(value);
    proof {
        let k = cell_index(g0.w(), x as int, y as int);
        lemma_views_update(g0, *wire, k, wire.cells()[k]);
        if g0.signals_bounded() {
            let vals = wire_views(g0)[k];
            assert(wire_views(*wire)[k] == wire.cells()[k]@);
            assert(vals == g0.cells()[k]@);
            assert(wire.cells()[k]@ == cell_power_sent(vals, value));
            lemma_cell_view_len(g0.cells()[k]);
            assert forall|c: int| 0 <= c < 5 implies (#[trigger] wire.cells()[k]@[c]).signal() <= MAX_UPDATE_SIGNAL by {
                assert(g0.cells()[k]@[c].signal() <= MAX_UPDATE_SIGNAL);
                match crate::wires::first_terminal(vals, 0) {
                    Some(t) => {
                        crate::wires::lemma_first_terminal_range(vals, 0);
                        assert(vals.len() == 5);
                        let sent = WireValue::Power { value, terminal: true, signal: crate::wires::FRESH_SIGNAL };
                        assert(cell_power_sent(vals, value) == vals.update(t, sent));
                        if c != t {
                            assert(vals.update(t, sent)[c] == vals[c]);
                        }
                    },
                    None => {},
                }
            }
            lemma_signals_bounded_after(g0, *wire, k);
        }
    }
}

} // verus!

verus! {

/// A door's progress after a tick: opening counts up to 15, closing down to 0.
pub open spec fn step_progress(state: DoorState, progress: u8) -> u8 {
    match state {
        DoorState::Opening => if progress + 1 < 15 {
            (progress + 1) as u8
        } else {
            15
        },
        DoorState::Closing => if progress > 0 {
            (progress - 1) as u8
        } else {
            0
        },
    }
}

/// The columns of a hatch that are open at a given progress.
pub open spec fn door_open_range(progress: u8) -> (u32, u32) {
    if progress <= 2 {
        (11, 11)
    } else if progress <= 4 {
        (10, 12)
    } else if progress <= 6 {
        (9, 13)
    } else if progress <= 8 {
        (8, 14)
    } else if progress <= 10 {
        (7, 15)
    } else if progress <= 12 {
        (6, 16)
    } else {
        (5, 17)
    }
}

/// How many cells of a door's column are open at a given progress.
pub open spec fn vertical_open_cells(progress: u8) -> u32 {
    if progress == 0 {
        0
    } else if progress < 3 {
        1
    } else if progress < 5 {
        2
    } else if progress < 7 {
        4
    } else if progress < 9 {
        6
    } else if progress < 11 {
        9
    } else if progress < 13 {
        10
    } else {
        12
    }
}

pub open spec fn dock_frame(progress: u8) -> int {
    clamp(progress * 9 / 15, 0, 8)
}

/// The row up to which a top docking connector reaches.
pub open spec fn dock_top_y(progress: u8) -> u32 {
    let frame = dock_frame(progress);
    if frame <= 2 {
        5
    } else if frame <= 5 {
        4
    } else if frame <= 7 {
        3
    } else {
        2
    }
}

/// The row down to which a bottom docking connector reaches.
pub open spec fn dock_bottom_y(progress: u8) -> u32 {
    let frame = dock_frame(progress);
    if frame <= 2 {
        4
    } else if frame <= 5 {
        5
    } else if frame <= 7 {
        6
    } else {
        7
    }
}

/// A motor's speed moves a tenth of the way towards its target.
pub open spec fn speed_step(speed: i8, target: i8) -> i8 {
    tdiv(speed * 9 + target, 10) as i8
}

/// A motor's animation advances by a quarter of its speed, wrapping around.
pub open spec fn progress_by_speed(progress: u8, speed: i8) -> u8 {
    ((progress + tdiv(speed as int, 4)) % 256) as u8
}

/// The engine's thrust for its speed.
pub open spec fn engine_acceleration(speed: i8) -> i32 {
    if speed <= -96 {
        -4i32
    } else if speed <= -64 {
        -3i32
    } else if speed <= -32 {
        -2i32
    } else if speed <= -16 {
        -1i32
    } else if speed <= 15 {
        0
    } else if speed <= 31 {
        1
    } else if speed <= 63 {
        2
    } else if speed <= 95 {
        3
    } else {
        4
    }
}

/// The signal of a wire end as a bundle stores it.
pub open spec fn stored(v: WireValue) -> StoredSignal {
    StoredSignal { logic: v.get_logic(), power: v.get_power() }
}

/// A bundle buffer with the signals of the four thin colours of `source`
/// stored in sub-bundle `sub`.
pub open spec fn bundle_stored(b: WireBundle, sub: int, source: Seq<WireValue>) -> WireBundle {
    let row = b.bundled_cells@[sub];
    WireBundle {
        bundled_cells: vstd::array::spec_array_update(
            b.bundled_cells,
            sub,
            [row@[0], stored(source[1]), stored(source[2]), stored(source[3]), stored(source[4])],
        ),
    }
}

/// A bundle buffer with one stored signal replaced.
pub open spec fn bundle_with_signal(b: WireBundle, sub: int, color: int, signal: StoredSignal) -> WireBundle {
    WireBundle {
        bundled_cells: vstd::array::spec_array_update(
            b.bundled_cells,
            sub,
            vstd::array::spec_array_update(b.bundled_cells@[sub], color, signal),
        ),
    }
}

/// The wire value after a bundle output drives the stored signal into it:
/// power if there is any, else logic.
pub open spec fn driven(v: WireValue, signal: StoredSignal) -> WireValue {
    match signal.power {
        Some(p) => power_sent(v, p),
        None => match signal.logic {
            Some(l) => logic_sent(v, l),
            None => v,
        },
    }
}

/// A bundle output hands colour `color` of sub-bundle `sub` of bundle `id`
/// to the wire end at `(x, y)` (if the wire ends there), using up the power.
pub open spec fn output_color(s: SubView, width: int, x: int, y: int, id: int, sub: int, color: int) -> SubView {
    let vals = wire_at(s, width, x, y);
    if vals[color].is_terminal() && id < s.3.len() {
        let signal = s.3[id].bundled_cells@[sub]@[color];
        let outputs = s.3.update(
            id,
            bundle_with_signal(s.3[id], sub, color, StoredSignal { logic: signal.logic, power: None }),
        );
        let s1 = (s.0, s.1, s.2, outputs, s.4, s.5);
        with_wire(s1, width, x, y, vals.update(color, driven(vals[color], signal)))
    } else {
        s
    }
}

/// The three cells of a bundle plug all belong to one existing bundle.
pub open spec fn plugged_bundle(s: SubView, width: int, x: int, y: int) -> Option<u8> {
    match bundle_at(s, width, x, y) {
        Some(id) => if bundle_at(s, width, x + 1, y) == Some(id) && bundle_at(s, width, x + 2, y) == Some(id) {
            Some(id)
        } else {
            None
        },
        None => None,
    }
}

/// The navigation controller's speed request, clamped into a logic value.
pub open spec fn logic_of(v: i32) -> i8 {
    clamp(v as int, -128, 127) as i8
}

} // verus!

verus! {

/// The object's counters are in the ranges its update can step them in.
pub open spec fn object_ok(o: Object) -> bool {
    match o.object_type {
        ObjectType::Door { progress, .. } => progress < 255,
        ObjectType::VerticalDoor { progress, .. } => progress < 255,
        ObjectType::JunctionBox { progress, .. } => progress < 255,
        ObjectType::NavController { progress, .. } => progress < 255,
        ObjectType::Battery { charge } => charge <= 65533,
        ObjectType::BundleInput { sub_bundle } => sub_bundle < 8,
        ObjectType::BundleOutput { sub_bundle } => sub_bundle < 8,
        ObjectType::DockingConnectorTop { progress, .. } => progress < 255,
        ObjectType::DockingConnectorBottom { progress, .. } => progress < 255,
        _ => true,
    }
}

/// An object's update can run on the view `s` the objects before it left:
/// a motor already at `i8::MIN` is not driven at `i8::MIN` again (its new
/// speed could not be negated), and a navigation controller reads a
/// navigation state it can compute with.
pub open spec fn object_safe(o: Object, cw: int, s: SubView) -> bool {
    let px = o.position.0 as int;
    let py = o.position.1 as int;
    match o.object_type {
        ObjectType::SmallPump { target_speed, speed, .. } => !(speed == i8::MIN && motor_drive(
            s,
            cw,
            (px + 5, py + 2),
            (px + 3, py + 2),
            50,
            target_speed,
        ) == i8::MIN),
        ObjectType::LargePump { target_speed, speed, .. } => !(speed == i8::MIN && motor_drive(
            s,
            cw,
            (px + 13, py + 3),
            (px + 10, py + 3),
            100,
            target_speed,
        ) == i8::MIN),
        ObjectType::Engine { target_speed, speed, .. } => !(speed == i8::MIN && motor_drive(
            s,
            cw,
            (px + 36, py + 8),
            (px + 36, py + 6),
            100,
            target_speed,
        ) == i8::MIN),
        ObjectType::NavController { .. } => navigation_computable(s.4),
        _ => true,
    }
}

/// Everything the object reads and writes lies inside the water grid
/// (`ww` by `wh`) and the wire grid (`cw` by `ch`): the first number of
/// each pair is how far right of the object it reaches, the second how far
/// down.
pub open spec fn object_fits(o: Object, ww: int, wh: int, cw: int, ch: int) -> bool {
    let px = o.position.0 as int;
    let py = o.position.1 as int;
    let wire = |dx: int, dy: int| px + dx <= cw && py + dy <= ch;
    let water = |dx: int, dy: int| px + dx <= ww && py + dy <= wh;
    match o.object_type {
        ObjectType::Door { .. } => wire(20, 5) && water(18, 6),
        ObjectType::VerticalDoor { .. } => water(4, 17),
        ObjectType::Reactor { .. } => wire(30, 6),
        ObjectType::Lamp => wire(4, 2),
        ObjectType::Gauge { .. } => wire(5, 7),
        ObjectType::SmallPump { .. } => wire(6, 3) && water(8, 6),
        ObjectType::LargePump { .. } => wire(14, 4) && water(27, 16),
        ObjectType::JunctionBox { .. } => wire(6, 7),
        ObjectType::NavController { .. } => wire(9, 7),
        ObjectType::Sonar { .. } => wire(3, 16),
        ObjectType::Engine { .. } => wire(37, 9),
        ObjectType::Battery { .. } => wire(8, 5),
        ObjectType::BundleInput { .. } => wire(5, 3),
        ObjectType::BundleOutput { .. } => wire(5, 3),
        ObjectType::DockingConnectorTop { .. } => wire(21, 7) && water(18, 7),
        ObjectType::DockingConnectorBottom { .. } => wire(21, 5) && water(18, 8),
    }
}

/// A motor (pump or engine) after a tick: the target it last received, its
/// speed stepped towards that target if powered (towards 0 otherwise), and
/// its animation advanced.
pub open spec fn motor_step(
    s: SubView,
    cw: int,
    logic: (int, int),
    power: (int, int),
    minimum: u8,
    target_speed: i8,
    speed: i8,
    progress: u8,
) -> (i8, i8, u8) {
    let target = motor_target(s, cw, logic, target_speed);
    let new_speed = speed_step(speed, motor_drive(s, cw, logic, power, minimum, target_speed));
    (target, new_speed, progress_by_speed(progress, new_speed))
}

/// The target a motor keeps: the logic value arriving at `logic`, or the
/// one it had.
pub open spec fn motor_target(s: SubView, cw: int, logic: (int, int), target_speed: i8) -> i8 {
    match logic_at(s, cw, logic.0, logic.1) {
        Some(v) => v,
        None => target_speed,
    }
}

/// The speed a motor is driven towards on this tick: its target when enough
/// power arrives at `power`, 0 otherwise.
pub open spec fn motor_drive(
    s: SubView,
    cw: int,
    logic: (int, int),
    power: (int, int),
    minimum: u8,
    target_speed: i8,
) -> i8 {
    if powered_at(s, cw, power.0, power.1, minimum) {
        motor_target(s, cw, logic, target_speed)
    } else {
        0i8
    }
}

/// A junction box's progress after a tick.
pub open spec fn switch_progress(enabled: bool, progress: u8) -> u8 {
    step_progress(
        if enabled {
            DoorState::Opening
        } else {
            DoorState::Closing
        },
        progress,
    )
}

/// Sends one logic value to the four outputs of a junction box.
pub open spec fn junction_logic(s: SubView, cw: int, x: int, y: int, v: i8) -> SubView {
    send_logic_at(
        send_logic_at(send_logic_at(send_logic_at(s, cw, x + 2, y + 1, v), cw, x + 2, y + 2, v), cw, x + 2, y + 3, v),
        cw,
        x + 2,
        y + 4,
        v,
    )
}

pub open spec fn junction_power(s: SubView, cw: int, x: int, y: int, v: u8) -> SubView {
    send_power_at(
        send_power_at(send_power_at(send_power_at(s, cw, x + 2, y + 1, v), cw, x + 2, y + 2, v), cw, x + 2, y + 3, v),
        cw,
        x + 2,
        y + 4,
        v,
    )
}

/// A docking connector's change when its connection changes: it opens and
/// sends 100 on connecting, closes and sends -100 on disconnecting.
pub open spec fn dock_signal(
    s: SubView,
    cw: int,
    x: int,
    y: int,
    state: DoorState,
    connected: bool,
    previous_connected: bool,
) -> (DoorState, SubView) {
    if !previous_connected && connected {
        (DoorState::Opening, send_logic_at(s, cw, x, y, 100))
    } else if previous_connected && !connected {
        (DoorState::Closing, send_logic_at(s, cw, x, y, -100i8))
    } else {
        (state, s)
    }
}

/// Applies a water rule to the view for an object at `(px, py)`, noting
/// whether walls moved.
pub open spec fn water_step(s: SubView, ww: int, px: int, py: int, rule: WaterRule) -> SubView {
    (rule_applied(s.0, ww, px, py, rule), s.1, s.2, s.3, s.4, s.5 || rule_changes_walls(s.0, ww, px, py, rule))
}

/// What one object does on a physics update tick, given a water grid `ww`
/// cells wide and a wire grid `cw` cells wide: the object afterwards and
/// what it leaves of the grids and the navigation.
pub open spec fn object_step(o: Object, ww: int, cw: int, s: SubView) -> (Object, SubView) {
    let px = o.position.0 as int;
    let py = o.position.1 as int;
    match o.object_type {
        ObjectType::Door { state, progress } => {
            let l1 = logic_at(s, cw, px + 2, py + 4);
            let l2 = logic_at(s, cw, px + 19, py + 4);
            let l = if l1 is Some {
                l1
            } else {
                l2
            };
            let state1 = match l {
                Some(v) => if v > 0 {
                    DoorState::Opening
                } else if v < 0 {
                    DoorState::Closing
                } else {
                    state.toggled()
                },
                None => state,
            };
            let progress1 = step_progress(state1, progress);
            let range = door_open_range(progress1);
            let rule = WaterRule::Door { open_lo: range.0, open_hi: range.1 };
            (
                Object {
                    object_type: ObjectType::Door { state: state1, progress: progress1 },
                    powered: l is Some,
                    ..o
                },
                water_step(s, ww, px, py, rule),
            )
        },
        ObjectType::VerticalDoor { state, progress } => {
            let progress1 = step_progress(state, progress);
            let rule = WaterRule::VerticalDoor { open_cells: vertical_open_cells(progress1) };
            (
                Object { object_type: ObjectType::VerticalDoor { state, progress: progress1 }, ..o },
                water_step(s, ww, px, py, rule),
            )
        },
        ObjectType::Reactor { active } => (
            o,
            if active {
                send_power_at(s, cw, px + 29, py + 5, 200)
            } else {
                s
            },
        ),
        ObjectType::Lamp => (Object { powered: powered_at(s, cw, px + 3, py + 1, 10), ..o }, s),
        ObjectType::Gauge { value } => {
            let value1 = match logic_at(s, cw, px + 4, py + 2) {
                Some(v) => v,
                None => value,
            };
            (
                Object { object_type: ObjectType::Gauge { value: value1 }, ..o },
                send_logic_at(s, cw, px + 4, py + 6, value1),
            )
        },
        ObjectType::SmallPump { target_speed, speed, progress } => {
            let m = motor_step(s, cw, (px + 5, py + 2), (px + 3, py + 2), 50, target_speed, speed, progress);
            (
                Object {
                    object_type: ObjectType::SmallPump { target_speed: m.0, speed: m.1, progress: m.2 },
                    ..o
                },
                water_step(s, ww, px + 7, py + 5, WaterRule::Pump { amount: (m.1 * 3) as i32, size: 1 }),
            )
        },
        ObjectType::LargePump { target_speed, speed, progress } => {
            let m = motor_step(s, cw, (px + 13, py + 3), (px + 10, py + 3), 100, target_speed, speed, progress);
            (
                Object {
                    object_type: ObjectType::LargePump { target_speed: m.0, speed: m.1, progress: m.2 },
                    ..o
                },
                water_step(s, ww, px + 23, py + 12, WaterRule::Pump { amount: (m.1 * 2) as i32, size: 4 }),
            )
        },
        ObjectType::JunctionBox { enabled, progress } => {
            let x = px + 3;
            let y = py + 2;
            let s1 = match logic_at(s, cw, x, y) {
                Some(v) => junction_logic(s, cw, x, y, v),
                None => s,
            };
            let power = power_at(s1, cw, x, y);
            let s2 = match power {
                Some(v) => if progress >= 15 {
                    junction_power(s1, cw, x, y, v)
                } else {
                    s1
                },
                None => s1,
            };
            (
                Object {
                    object_type: ObjectType::JunctionBox { enabled, progress: switch_progress(enabled, progress) },
                    powered: power is Some,
                    ..o
                },
                s2,
            )
        },
        ObjectType::NavController { active, progress } => {
            let x = px + 2;
            let y = py + 4;
            let control = navigation_control(s.4);
            if active && powered_at(s, cw, x, y, 50) {
                let s1 = send_logic_at(s, cw, x + 6, y + 2, logic_of(control.engine_and_pump_speed.0));
                let s2 = send_logic_at(s1, cw, x + 6, y, logic_of(control.engine_and_pump_speed.1));
                (
                    Object {
                        object_type: ObjectType::NavController { active, progress: ((progress + 1) % 40) as u8 },
                        powered: true,
                        ..o
                    },
                    s2,
                )
            } else {
                (Object { powered: false, ..o }, s)
            }
        },
        ObjectType::Sonar { active, navigation_target } => {
            let powered = powered_at(s, cw, px + 2, py + 15, 100);
            let navigation = match navigation_target {
                Some(t) => if powered && active {
                    Navigation { target: (t.0 as i32, t.1 as i32), ..s.4 }
                } else {
                    s.4
                },
                None => s.4,
            };
            (Object { powered, ..o }, (s.0, s.1, s.2, s.3, navigation, s.5))
        },
        ObjectType::Engine { target_speed, speed, progress } => {
            let x = px + 36;
            let y = py + 6;
            let m = motor_step(s, cw, (x, y + 2), (x, y), 100, target_speed, speed, progress);
            let navigation = Navigation {
                acceleration: (engine_acceleration(m.1), s.4.acceleration.1),
                ..s.4
            };
            (
                Object { object_type: ObjectType::Engine { target_speed: m.0, speed: m.1, progress: m.2 }, ..o },
                (s.0, s.1, s.2, s.3, navigation, s.5),
            )
        },
        ObjectType::Battery { charge } => {
            let x = px + 2;
            let y = py + 4;
            let charged = if powered_at(s, cw, x, y, 100) {
                if charge + 2 < 5400 {
                    (charge + 2) as u16
                } else {
                    5400u16
                }
            } else {
                charge
            };
            if charged > 0 {
                (
                    Object { object_type: ObjectType::Battery { charge: (charged - 1) as u16 }, ..o },
                    send_power_at(s, cw, x + 5, y, 100),
                )
            } else {
                (Object { object_type: ObjectType::Battery { charge: charged }, ..o }, s)
            }
        },
        ObjectType::BundleInput { sub_bundle } => {
            let x = px + 2;
            let y = py + 2;
            match plugged_bundle(s, cw, x, y) {
                Some(id) => if id < s.2.len() {
                    let inputs = s.2.update(
                        id as int,
                        bundle_stored(s.2[id as int], sub_bundle as int, wire_at(s, cw, x + 2, y)),
                    );
                    (o, (s.0, s.1, inputs, s.3, s.4, s.5))
                } else {
                    (o, s)
                },
                None => (o, s),
            }
        },
        ObjectType::BundleOutput { sub_bundle } => {
            let x = px + 2;
            let y = py + 2;
            match plugged_bundle(s, cw, x, y) {
                Some(id) => {
                    let sub = sub_bundle as int;
                    let id = id as int;
                    let s1 = output_color(s, cw, x + 2, y, id, sub, 1);
                    let s2 = output_color(s1, cw, x + 2, y, id, sub, 2);
                    let s3 = output_color(s2, cw, x + 2, y, id, sub, 3);
                    (o, output_color(s3, cw, x + 2, y, id, sub, 4))
                },
                None => (o, s),
            }
        },
        ObjectType::DockingConnectorTop { state, progress, connected, previous_connected } => {
            let d = dock_signal(s, cw, px + 20, py + 6, state, connected, previous_connected);
            let progress1 = step_progress(d.0, progress);
            let rule = WaterRule::DockTop { top_y: dock_top_y(progress1), connected };
            let s1 = water_step(d.1, ww, px, py, rule);
            (
                Object {
                    object_type: ObjectType::DockingConnectorTop {
                        state: d.0,
                        progress: progress1,
                        connected,
                        previous_connected: connected,
                    },
                    ..o
                },
                (s1.0, s1.1, s1.2, s1.3, s1.4, true),
            )
        },
        ObjectType::DockingConnectorBottom { state, progress, connected, previous_connected } => {
            let d = dock_signal(s, cw, px + 20, py + 4, state, connected, previous_connected);
            let progress1 = step_progress(d.0, progress);
            let rule = WaterRule::DockBottom { bottom_y: dock_bottom_y(progress1), connected };
            let s1 = water_step(d.1, ww, px, py, rule);
            (
                Object {
                    object_type: ObjectType::DockingConnectorBottom {
                        state: d.0,
                        progress: progress1,
                        connected,
                        previous_connected: connected,
                    },
                    ..o
                },
                (s1.0, s1.1, s1.2, s1.3, s1.4, true),
            )
        },
    }
}

} // verus!

verus! {

/// What every object's update may assume of the grids and the navigation.
pub open spec fn step_pre(o: Object, water: WaterGrid, wire: WireGrid, navigation: Navigation) -> bool {
    &&& object_ok(o)
    &&& object_fits(o, water.w(), water.h(), wire.w(), wire.h())
    &&& grids_ok(water, wire)
    &&& object_safe(o, wire.w(), sub_view(water, wire, navigation, false))
}

/// What every object's update promises: the grids stay well formed and
/// keep their shape, and the object and what it
/// acts on change as `object_step` says.
pub open spec fn step_post(
    o0: Object,
    o1: Object,
    water0: WaterGrid,
    water1: WaterGrid,
    wire0: WireGrid,
    wire1: WireGrid,
    navigation0: Navigation,
    navigation1: Navigation,
    walls0: bool,
    walls1: bool,
) -> bool {
    &&& grids_ok(water1, wire1)
    &&& grids_kept(water1, wire1, water0, wire0)
    &&& wire0.signals_bounded() ==> wire1.signals_bounded()
    &&& (o1, sub_view(water1, wire1, navigation1, walls1)) == object_step(
        o0,
        water0.w(),
        wire0.w(),
        sub_view(water0, wire0, navigation0, walls0),
    )
}

fn step_progress_exec(state: DoorState, progress: u8) -> (r: u8)
    requires
        progress < 255,
    ensures
        r == step_progress(state, progress),
{
    match state {
        DoorState::Opening => if progress + 1 < 15 {
            progress + 1
        } else {
            15
        },
        DoorState::Closing => progress.saturating_sub(1),
    }
}

fn door_open_range_exec(progress: u8) -> (r: (u32, u32))
    ensures
        r == door_open_range(progress),
{
    if progress <= 2 {
        (11, 11)
    } else if progress <= 4 {
        (10, 12)
    } else if progress <= 6 {
        (9, 13)
    } else if progress <= 8 {
        (8, 14)
    } else if progress <= 10 {
        (7, 15)
    } else if progress <= 12 {
        (6, 16)
    } else {
        (5, 17)
    }
}

fn vertical_open_cells_exec(progress: u8) -> (r: u32)
    ensures
        r == vertical_open_cells(progress),
{
    if progress == 0 {
        0
    } else if progress < 3 {
        1
    } else if progress < 5 {
        2
    } else if progress < 7 {
        4
    } else if progress < 9 {
        6
    } else if progress < 11 {
        9
    } else if progress < 13 {
        10
    } else {
        12
    }
}

fn update_door(
    object: &mut Object,
    water: &mut WaterGrid,
    wire: &mut WireGrid,
    navigation: &mut Navigation,
    walls_updated: &mut bool,
)
    requires
        old(object).object_type is Door,
        step_pre(*old(object), *old(water), *old(wire), *old(navigation)),
    ensures
        step_post(
            *old(object),
            *final(object),
            *old(water),
            *final(water),
            *old(wire),
            *final(wire),
            *old(navigation),
            *final(navigation),
            *old(walls_updated),
            *final(walls_updated),
        ),
{
    proof {
        wire.lemma_wf();
        water.lemma_wf();
    }
    let px = object.position.0 as usize;
    let py = object.position.1 as usize;
    if let ObjectType::Door { state, progress } = object.object_type {
        let logic1 = wire_logic_at(wire, px + 2, py + 4);
        let logic2 = wire_logic_at(wire, px + 19, py + 4);
        let logic = if logic1.is_some() {
            logic1
        } else {
            logic2
        };
        let mut state = state;
        let mut powered = false;
        if let Some(logic_value) = logic {
            state = if logic_value > 0 {
                DoorState::Opening
            } else if logic_value < 0 {
                DoorState::Closing
            } else {
                state.toggle()
            };
            powered = true;
        }
        let progress = step_progress_exec(state, progress);
        let (open_lo, open_hi) = door_open_range_exec(progress);
        if apply_water_rule(water, px, py, WaterRule::Door { open_lo, open_hi }) {
            *walls_updated = true;
        }
        object.object_type = ObjectType::Door { state, progress };
        object.powered = powered;
    }
}

} // verus!

verus! {

fn update_vertical_door(
    object: &mut Object,
    water: &mut WaterGrid,
    wire: &mut WireGrid,
    navigation: &mut Navigation,
    walls_updated: &mut bool,
)
    requires
        old(object).object_type is VerticalDoor,
        step_pre(*old(object), *old(water), *old(wire), *old(navigation)),
    ensures
        step_post(
            *old(object),
            *final(object),
            *old(water),
            *final(water),
            *old(wire),
            *final(wire),
            *old(navigation),
            *final(navigation),
            *old(walls_updated),
            *final(walls_updated),
        ),
{
    proof {
        wire.lemma_wf();
        water.lemma_wf();
    }
    let px = object.position.0 as usize;
    let py = object.position.1 as usize;
    if let ObjectType::VerticalDoor { state, progress } = object.object_type {
        let progress = step_progress_exec(state, progress);
        let open_cells = vertical_open_cells_exec(progress);
        if apply_water_rule(water, px, py, WaterRule::VerticalDoor { open_cells }) {
            *walls_updated = true;
        }
        object.object_type = ObjectType::VerticalDoor { state, progress };
    }
}

fn update_reactor(
    object: &mut Object,
    water: &mut WaterGrid,
    wire: &mut WireGrid,
    navigation: &mut Navigation,
    walls_updated: &mut bool,
)
    requires
        old(object).object_type is Reactor,
        step_pre(*old(object), *old(water), *old(wire), *old(navigation)),
    ensures
        step_post(
            *old(object),
            *final(object),
            *old(water),
            *final(water),
            *old(wire),
            *final(wire),
            *old(navigation),
            *final(navigation),
            *old(walls_updated),
            *final(walls_updated),
        ),
{
    proof {
        wire.lemma_wf();
        water.lemma_wf();
    }
    let px = object.position.0 as usize;
    let py = object.position.1 as usize;
    if let ObjectType::Reactor { active } = object.object_type {
        if active {
            wire_send_power(wire, px + 29, py + 5, 200);
        }
    }
}

fn update_lamp(
    object: &mut Object,
    water: &mut WaterGrid,
    wire: &mut WireGrid,
    navigation: &mut Navigation,
    walls_updated: &mut bool,
)
    requires
        old(object).object_type is Lamp,
        step_pre(*old(object), *old(water), *old(wire), *old(navigation)),
    ensures
        step_post(
            *old(object),
            *final(object),
            *old(water),
            *final(water),
            *old(wire),
            *final(wire),
            *old(navigation),
            *final(navigation),
            *old(walls_updated),
            *final(walls_updated),
        ),
{
    proof {
        wire.lemma_wf();
        water.lemma_wf();
    }
    let px = object.position.0 as usize;
    let py = object.position.1 as usize;
    object.powered = wire_powered_at(wire, px + 3, py + 1, 10);
}

fn update_gauge(
    object: &mut Object,
    water: &mut WaterGrid,
    wire: &mut WireGrid,
    navigation: &mut Navigation,
    walls_updated: &mut bool,
)
    requires
        old(object).object_type is Gauge,
        step_pre(*old(object), *old(water), *old(wire), *old(navigation)),
    ensures
        step_post(
            *old(object),
            *final(object),
            *old(water),
            *final(water),
            *old(wire),
            *final(wire),
            *old(navigation),
            *final(navigation),
            *old(walls_updated),
            *final(walls_updated),
        ),
{
    proof {
        wire.lemma_wf();
        water.lemma_wf();
    }
    let px = object.position.0 as usize;
    let py = object.position.1 as usize;
    if let ObjectType::Gauge { value } = object.object_type {
        let mut value = value;
        if let Some(logic_value) = wire_logic_at(wire, px + 4, py + 2) {
            value = logic_value;
        }
        wire_send_logic(wire, px + 4, py + 6, value);
        object.object_type = ObjectType::Gauge { value };
    }
}

} // verus!

verus! {

/// A motor's new target, speed and animation progress (see `motor_step`).
fn motor_exec(
    wire: &WireGrid,
    logic_x: usize,
    logic_y: usize,
    power_x: usize,
    power_y: usize,
    minimum: u8,
    target_speed: i8,
    speed: i8,
    progress: u8,
) -> (r: (i8, i8, u8))
    requires
        wire.wf(),
        wire.in_bounds(logic_x as int, logic_y as int),
        wire.in_bounds(power_x as int, power_y as int),
        forall|s: SubView|
            s.1 == wire_views(*wire) ==> !(speed == i8::MIN && #[trigger] motor_drive(
                s,
                wire.w(),
                (logic_x as int, logic_y as int),
                (power_x as int, power_y as int),
                minimum,
                target_speed,
            ) == i8::MIN),
    ensures
        forall|s: SubView|
            s.1 == wire_views(*wire) ==> r == #[trigger] motor_step(
                s,
                wire.w(),
                (logic_x as int, logic_y as int),
                (power_x as int, power_y as int),
                minimum,
                target_speed,
                speed,
                progress,
            ),
{
    let mut target = target_speed;
    if let Some(logic_value) = wire_logic_at(wire, logic_x, logic_y) {
        target = logic_value;
    }
    let effective: i8 = if wire_powered_at(wire, power_x, power_y, minimum) {
        target
    } else {
        0
    };
    proof {
        let s: SubView = (
            Seq::empty(),
            wire_views(*wire),
            Seq::empty(),
            Seq::empty(),
            Navigation { target: (0, 0), position: (0, 0), speed: (0, 0), docking_override: (0, 0), acceleration: (0, 0) },
            false,
        );
        assert(effective == motor_drive(
            s,
            wire.w(),
            (logic_x as int, logic_y as int),
            (power_x as int, power_y as int),
            minimum,
            target_speed,
        ));
        assert(speed as i16 * 9 + effective as i16 > -1280);
    }
    let new_speed = ((speed as i16 * 9 + effective as i16) / 10) as i8;
    assert(new_speed > i8::MIN);
    let new_progress = if new_speed >= 0 {
        progress.wrapping_add((new_speed / 4) as u8)
    } else {
        progress.wrapping_sub(((-new_speed) / 4) as u8)
    };
    proof {
        assert(new_speed == speed_step(speed, effective));
        assert(new_progress == progress_by_speed(progress, new_speed));
    }
    (target, new_speed, new_progress)
}

fn engine_acceleration_exec(speed: i8) -> (r: i32)
    ensures
        r == engine_acceleration(speed),
{
    if speed <= -96 {
        -4
    } else if speed <= -64 {
        -3
    } else if speed <= -32 {
        -2
    } else if speed <= -16 {
        -1
    } else if speed <= 15 {
        0
    } else if speed <= 31 {
        1
    } else if speed <= 63 {
        2
    } else if speed <= 95 {
        3
    } else {
        4
    }
}

fn update_small_pump(
    object: &mut Object,
    water: &mut WaterGrid,
    wire: &mut WireGrid,
    navigation: &mut Navigation,
    walls_updated: &mut bool,
)
    requires
        old(object).object_type is SmallPump,
        step_pre(*old(object), *old(water), *old(wire), *old(navigation)),
    ensures
        step_post(
            *old(object),
            *final(object),
            *old(water),
            *final(water),
            *old(wire),
            *final(wire),
            *old(navigation),
            *final(navigation),
            *old(walls_updated),
            *final(walls_updated),
        ),
{
    proof {
        wire.lemma_wf();
        water.lemma_wf();
    }
    let px = object.position.0 as usize;
    let py = object.position.1 as usize;
    if let ObjectType::SmallPump { target_speed, speed, progress } = object.object_type {
        let (target_speed, speed, progress) = motor_exec(wire, px + 5, py + 2, px + 3, py + 2, 50, target_speed, speed, progress);
        if apply_water_rule(water, px + 7, py + 5, WaterRule::Pump { amount: speed as i32 * 3, size: 1 }) {
            *walls_updated = true;
        }
        object.object_type = ObjectType::SmallPump { target_speed, speed, progress };
    }
}

fn update_large_pump(
    object: &mut Object,
    water: &mut WaterGrid,
    wire: &mut WireGrid,
    navigation: &mut Navigation,
    walls_updated: &mut bool,
)
    requires
        old(object).object_type is LargePump,
        step_pre(*old(object), *old(water), *old(wire), *old(navigation)),
    ensures
        step_post(
            *old(object),
            *final(object),
            *old(water),
            *final(water),
            *old(wire),
            *final(wire),
            *old(navigation),
            *final(navigation),
            *old(walls_updated),
            *final(walls_updated),
        ),
{
    proof {
        wire.lemma_wf();
        water.lemma_wf();
    }
    let px = object.position.0 as usize;
    let py = object.position.1 as usize;
    if let ObjectType::LargePump { target_speed, speed, progress } = object.object_type {
        let (target_speed, speed, progress) = motor_exec(wire, px + 13, py + 3, px + 10, py + 3, 100, target_speed, speed, progress);
        if apply_water_rule(water, px + 23, py + 12, WaterRule::Pump { amount: speed as i32 * 2, size: 4 }) {
            *walls_updated = true;
        }
        object.object_type = ObjectType::LargePump { target_speed, speed, progress };
    }
}

fn update_engine(
    object: &mut Object,
    water: &mut WaterGrid,
    wire: &mut WireGrid,
    navigation: &mut Navigation,
    walls_updated: &mut bool,
)
    requires
        old(object).object_type is Engine,
        step_pre(*old(object), *old(water), *old(wire), *old(navigation)),
    ensures
        step_post(
            *old(object),
            *final(object),
            *old(water),
            *final(water),
            *old(wire),
            *final(wire),
            *old(navigation),
            *final(navigation),
            *old(walls_updated),
            *final(walls_updated),
        ),
{
    proof {
        wire.lemma_wf();
        water.lemma_wf();
    }
    let px = object.position.0 as usize;
    let py = object.position.1 as usize;
    if let ObjectType::Engine { target_speed, speed, progress } = object.object_type {
        let x = px + 36;
        let y = py + 6;
        let (target_speed, speed, progress) = motor_exec(wire, x, y + 2, x, y, 100, target_speed, speed, progress);
        navigation.acceleration.0 = engine_acceleration_exec(speed);
        object.object_type = ObjectType::Engine { target_speed, speed, progress };
    }
}

} // verus!

verus! {

fn logic_of_exec(v: i32) -> (r: i8)
    ensures
        r == logic_of(v),
{
    if v < -128 {
        -128
    } else if v > 127 {
        127
    } else {
        v as i8
    }
}

fn dock_top_y_exec(progress: u8) -> (r: u32)
    ensures
        r == dock_top_y(progress),
{
    let scaled = progress as u16 * 9 / 15;
    let frame: u16 = if scaled > 8 {
        8
    } else {
        scaled
    };
    if frame <= 2 {
        5
    } else if frame <= 5 {
        4
    } else if frame <= 7 {
        3
    } else {
        2
    }
}

fn dock_bottom_y_exec(progress: u8) -> (r: u32)
    ensures
        r == dock_bottom_y(progress),
{
    let scaled = progress as u16 * 9 / 15;
    let frame: u16 = if scaled > 8 {
        8
    } else {
        scaled
    };
    if frame <= 2 {
        4
    } else if frame <= 5 {
        5
    } else if frame <= 7 {
        6
    } else {
        7
    }
}

fn update_junction_box(
    object: &mut Object,
    water: &mut WaterGrid,
    wire: &mut WireGrid,
    navigation: &mut Navigation,
    walls_updated: &mut bool,
)
    requires
        old(object).object_type is JunctionBox,
        step_pre(*old(object), *old(water), *old(wire), *old(navigation)),
    ensures
        step_post(
            *old(object),
            *final(object),
            *old(water),
            *final(water),
            *old(wire),
            *final(wire),
            *old(navigation),
            *final(navigation),
            *old(walls_updated),
            *final(walls_updated),
        ),
{
    proof {
        wire.lemma_wf();
        water.lemma_wf();
    }
    let px = object.position.0 as usize;
    let py = object.position.1 as usize;
    if let ObjectType::JunctionBox { enabled, progress } = object.object_type {
        let x = px + 3;
        let y = py + 2;
        if let Some(logic_value) = wire_logic_at(wire, x, y) {
            wire_send_logic(wire, x + 2, y + 1, logic_value);
            wire_send_logic(wire, x + 2, y + 2, logic_value);
            wire_send_logic(wire, x + 2, y + 3, logic_value);
            wire_send_logic(wire, x + 2, y + 4, logic_value);
        }
        let power = wire_power_at(wire, x, y);
        object.powered = false;
        if let Some(power_value) = power {
            object.powered = true;
            if progress >= 15 {
                wire_send_power(wire, x + 2, y + 1, power_value);
                wire_send_power(wire, x + 2, y + 2, power_value);
                wire_send_power(wire, x + 2, y + 3, power_value);
                wire_send_power(wire, x + 2, y + 4, power_value);
            }
        }
        let direction = if enabled {
            DoorState::Opening
        } else {
            DoorState::Closing
        };
        let progress = step_progress_exec(direction, progress);
        object.object_type = ObjectType::JunctionBox { enabled, progress };
    }
}

fn update_nav_controller(
    object: &mut Object,
    water: &mut WaterGrid,
    wire: &mut WireGrid,
    navigation: &mut Navigation,
    walls_updated: &mut bool,
)
    requires
        old(object).object_type is NavController,
        step_pre(*old(object), *old(water), *old(wire), *old(navigation)),
    ensures
        step_post(
            *old(object),
            *final(object),
            *old(water),
            *final(water),
            *old(wire),
            *final(wire),
            *old(navigation),
            *final(navigation),
            *old(walls_updated),
            *final(walls_updated),
        ),
{
    proof {
        wire.lemma_wf();
        water.lemma_wf();
    }
    let px = object.position.0 as usize;
    let py = object.position.1 as usize;
    if let ObjectType::NavController { active, progress } = object.object_type {
        let x = px + 2;
        let y = py + 4;
        let nav_control = compute_navigation(navigation);
        object.powered = false;
        if active && wire_powered_at(wire, x, y, 50) {
            let (engine_speed, pump_speed) = nav_control.engine_and_pump_speed;
            wire_send_logic(wire, x + 6, y + 2, logic_of_exec(engine_speed));
            wire_send_logic(wire, x + 6, y, logic_of_exec(pump_speed));
            object.object_type = ObjectType::NavController { active, progress: (progress + 1) % 40 };
            object.powered = true;
        }
    }
}

fn update_sonar(
    object: &mut Object,
    water: &mut WaterGrid,
    wire: &mut WireGrid,
    navigation: &mut Navigation,
    walls_updated: &mut bool,
)
    requires
        old(object).object_type is Sonar,
        step_pre(*old(object), *old(water), *old(wire), *old(navigation)),
    ensures
        step_post(
            *old(object),
            *final(object),
            *old(water),
            *final(water),
            *old(wire),
            *final(wire),
            *old(navigation),
            *final(navigation),
            *old(walls_updated),
            *final(walls_updated),
        ),
{
    proof {
        wire.lemma_wf();
        water.lemma_wf();
    }
    let px = object.position.0 as usize;
    let py = object.position.1 as usize;
    if let ObjectType::Sonar { active, navigation_target } = object.object_type {
        let powered = wire_powered_at(wire, px + 2, py + 15, 100);
        object.powered = powered;
        if powered && active {
            if let Some(target) = navigation_target {
                navigation.target = (target.0 as i32, target.1 as i32);
            }
        }
    }
}

fn update_battery(
    object: &mut Object,
    water: &mut WaterGrid,
    wire: &mut WireGrid,
    navigation: &mut Navigation,
    walls_updated: &mut bool,
)
    requires
        old(object).object_type is Battery,
        step_pre(*old(object), *old(water), *old(wire), *old(navigation)),
    ensures
        step_post(
            *old(object),
            *final(object),
            *old(water),
            *final(water),
            *old(wire),
            *final(wire),
            *old(navigation),
            *final(navigation),
            *old(walls_updated),
            *final(walls_updated),
        ),
{
    proof {
        wire.lemma_wf();
        water.lemma_wf();
    }
    let px = object.position.0 as usize;
    let py = object.position.1 as usize;
    if let ObjectType::Battery { charge } = object.object_type {
        let x = px + 2;
        let y = py + 4;
        let mut charge = charge;
        if wire_powered_at(wire, x, y, 100) {
            // 3 minutes: 3m * 60s * 30ups
            charge = if charge + 2 < 5400 {
                charge + 2
            } else {
                5400
            };
        }
        if charge > 0 {
            charge = charge - 1;
            wire_send_power(wire, x + 5, y, 100);
        }
        object.object_type = ObjectType::Battery { charge };
    }
}

fn update_docking_top(
    object: &mut Object,
    water: &mut WaterGrid,
    wire: &mut WireGrid,
    navigation: &mut Navigation,
    walls_updated: &mut bool,
)
    requires
        old(object).object_type is DockingConnectorTop,
        step_pre(*old(object), *old(water), *old(wire), *old(navigation)),
    ensures
        step_post(
            *old(object),
            *final(object),
            *old(water),
            *final(water),
            *old(wire),
            *final(wire),
            *old(navigation),
            *final(navigation),
            *old(walls_updated),
            *final(walls_updated),
        ),
{
    proof {
        wire.lemma_wf();
        water.lemma_wf();
    }
    let px = object.position.0 as usize;
    let py = object.position.1 as usize;
    if let ObjectType::DockingConnectorTop { state, progress, connected, previous_connected } = object.object_type {
        let x = px + 20;
        let y = py + 6;
        let mut state = state;
        if !previous_connected && connected {
            state = DoorState::Opening;
            wire_send_logic(wire, x, y, 100);
        }
        if previous_connected && !connected {
            state = DoorState::Closing;
            wire_send_logic(wire, x, y, -100);
        }
        let progress = step_progress_exec(state, progress);
        let top_y = dock_top_y_exec(progress);
        apply_water_rule(water, px, py, WaterRule::DockTop { top_y, connected });
        *walls_updated = true;
        object.object_type = ObjectType::DockingConnectorTop {
            state,
            progress,
            connected,
            previous_connected: connected,
        };
    }
}

fn update_docking_bottom(
    object: &mut Object,
    water: &mut WaterGrid,
    wire: &mut WireGrid,
    navigation: &mut Navigation,
    walls_updated: &mut bool,
)
    requires
        old(object).object_type is DockingConnectorBottom,
        step_pre(*old(object), *old(water), *old(wire), *old(navigation)),
    ensures
        step_post(
            *old(object),
            *final(object),
            *old(water),
            *final(water),
            *old(wire),
            *final(wire),
            *old(navigation),
            *final(navigation),
            *old(walls_updated),
            *final(walls_updated),
        ),
{
    proof {
        wire.lemma_wf();
        water.lemma_wf();
    }
    let px = object.position.0 as usize;
    let py = object.position.1 as usize;
    if let ObjectType::DockingConnectorBottom { state, progress, connected, previous_connected } = object.object_type {
        let x = px + 20;
        let y = py + 4;
        let mut state = state;
        if !previous_connected && connected {
            state = DoorState::Opening;
            wire_send_logic(wire, x, y, 100);
        }
        if previous_connected && !connected {
            state = DoorState::Closing;
            wire_send_logic(wire, x, y, -100);
        }
        let progress = step_progress_exec(state, progress);
        let bottom_y = dock_bottom_y_exec(progress);
        apply_water_rule(water, px, py, WaterRule::DockBottom { bottom_y, connected });
        *walls_updated = true;
        object.object_type = ObjectType::DockingConnectorBottom {
            state,
            progress,
            connected,
            previous_connected: connected,
        };
    }
}

} // verus!

verus! {

/// The bundle that all three cells of a bundle plug at `(x, y)` belong to.
fn plugged_bundle_exec(wire: &WireGrid, x: usize, y: usize) -> (r: Option<u8>)
    requires
        wire.wf(),
        wire.in_bounds(x as int + 2, y as int),
    ensures
        forall|s: SubView| s.1 == wire_views(*wire) ==> r == #[trigger] plugged_bundle(s, wire.w(), x as int, y as int),
{
    proof {
        wire.lemma_wf();
    }
    match wire_bundle_at(wire, x, y) {
        Some(id) => {
            let b2 = wire_bundle_at(wire, x + 1, y);
            let b3 = wire_bundle_at(wire, x + 2, y);
            let same2 = match b2 {
                Some(b) => b == id,
                None => false,
            };
            let same3 = match b3 {
                Some(b) => b == id,
                None => false,
            };
            if same2 && same3 {
                Some(id)
            } else {
                None
            }
        },
        None => None,
    }
}

/// Hands colour `color` of sub-bundle `sub` of bundle `id` to the wire end
/// at `(x, y)` (see `output_color`).
fn output_color_exec(wire: &mut WireGrid, x: usize, y: usize, id: u8, sub: usize, color: WireColor)
    requires
        old(wire).wf(),
        old(wire).in_bounds(x as int, y as int),
        sub < 8,
    ensures
        final(wire).wf(),
        final(wire).w() == old(wire).w(),
        final(wire).h() == old(wire).h(),
        forall|c: int| #[trigger] final(wire).wires(c) == old(wire).wires(c),
        final(wire).inputs() == old(wire).inputs(),
        final(wire).outputs().len() == old(wire).outputs().len(),
        old(wire).signals_bounded() ==> final(wire).signals_bounded(),
        forall|s: SubView|
            s.1 == wire_views(*old(wire)) && s.3 == old(wire).outputs() ==> {
                let t = #[trigger] output_color(s, old(wire).w(), x as int, y as int, id as int, sub as int, color.idx());
                &&& wire_views(*final(wire)) == t.1
                &&& final(wire).outputs() == t.3
            },
{
    let ghost g0 = *wire;
    proof {
        wire.lemma_wf();
        lemma_cell_index_bounds(wire.w(), wire.h(), x as int, y as int);
    }
    let ci = color.index();
    if wire.cell(x, y).value(color).is_terminal() {
        let signal = match wire.wire_bundle_output_mut(id) {
            Some(output) => {
                let mut row = output.bundled_cells[sub];
                let signal = row[ci];
                // Power is also consumed.
                row[ci] = StoredSignal { logic: signal.logic, power: None };
                output.bundled_cells[sub] = row;
                proof {
                    assert(output.bundled_cells =~= bundle_with_signal(
                        g0.outputs()[id as int],
                        sub as int,
                        ci as int,
                        StoredSignal { logic: signal.logic, power: None },
                    ).bundled_cells);
                }
                Some(signal)
            },
            None => None,
        };
        if let Some(signal) = signal {
            let ghost g1 = *wire;
            let cell = wire.cell_mut(x, y);
            let value = cell.value_mut(color);
            match signal.power {
                Some(power) => value.set_power(power),
                None => match signal.logic {
                    Some(logic) => value.set_logic(logic),
                    None => (),
                },
            }
            proof {
                let k = cell_index(g1.w(), x as int, y as int);
                lemma_views_update(g1, *wire, k, wire.cells()[k]);
                if g0.signals_bounded() {
                    lemma_cell_view_len(g1.cells()[k]);
                    assert(g1.cells() == g0.cells());
                    assert forall|c: int| 0 <= c < 5 implies (#[trigger] wire.cells()[k]@[c]).signal()
                        <= MAX_UPDATE_SIGNAL by {
                        assert(g1.cells()[k]@[c].signal() <= MAX_UPDATE_SIGNAL);
                        if c != ci {
                            assert(wire.cells()[k]@[c] == g1.cells()[k]@[c]);
                        }
                    }
                    lemma_signals_bounded_after(g1, *wire, k);
                }
            }
        }
    }
}

fn update_bundle_input(
    object: &mut Object,
    water: &mut WaterGrid,
    wire: &mut WireGrid,
    navigation: &mut Navigation,
    walls_updated: &mut bool,
)
    requires
        old(object).object_type is BundleInput,
        step_pre(*old(object), *old(water), *old(wire), *old(navigation)),
    ensures
        step_post(
            *old(object),
            *final(object),
            *old(water),
            *final(water),
            *old(wire),
            *final(wire),
            *old(navigation),
            *final(navigation),
            *old(walls_updated),
            *final(walls_updated),
        ),
{
    proof {
        wire.lemma_wf();
        water.lemma_wf();
    }
    let px = object.position.0 as usize;
    let py = object.position.1 as usize;
    if let ObjectType::BundleInput { sub_bundle } = object.object_type {
        let x = px + 2;
        let y = py + 2;
        if let Some(bundle_id) = plugged_bundle_exec(wire, x, y) {
            proof {
                lemma_cell_index_bounds(wire.w(), wire.h(), x + 2, y as int);
            }
            let source = *wire.cell(x + 2, y);
            let ghost g0 = *wire;
            if let Some(bundle) = wire.wire_bundle_input_mut(bundle_id) {
                let sub = sub_bundle as usize;
                let mut row = bundle.bundled_cells[sub];
                row[1] = StoredSignal {
                    logic: source.value(WireColor::Purple).get_logic(),
                    power: source.value(WireColor::Purple).get_power(),
                };
                row[2] = StoredSignal {
                    logic: source.value(WireColor::Brown).get_logic(),
                    power: source.value(WireColor::Brown).get_power(),
                };
                row[3] = StoredSignal {
                    logic: source.value(WireColor::Blue).get_logic(),
                    power: source.value(WireColor::Blue).get_power(),
                };
                row[4] = StoredSignal {
                    logic: source.value(WireColor::Green).get_logic(),
                    power: source.value(WireColor::Green).get_power(),
                };
                bundle.bundled_cells[sub] = row;
                proof {
                    let k = cell_index(g0.w(), x + 2, y as int);
                    assert(source@ == wire_views(g0)[k]);
                    assert(row =~= [
                        g0.inputs()[bundle_id as int].bundled_cells@[sub as int]@[0],
                        stored(source@[1]),
                        stored(source@[2]),
                        stored(source@[3]),
                        stored(source@[4]),
                    ]);
                    assert(bundle.bundled_cells =~= bundle_stored(g0.inputs()[bundle_id as int], sub as int, source@).bundled_cells);
                }
            }
        }
    }
}

fn update_bundle_output(
    object: &mut Object,
    water: &mut WaterGrid,
    wire: &mut WireGrid,
    navigation: &mut Navigation,
    walls_updated: &mut bool,
)
    requires
        old(object).object_type is BundleOutput,
        step_pre(*old(object), *old(water), *old(wire), *old(navigation)),
    ensures
        step_post(
            *old(object),
            *final(object),
            *old(water),
            *final(water),
            *old(wire),
            *final(wire),
            *old(navigation),
            *final(navigation),
            *old(walls_updated),
            *final(walls_updated),
        ),
{
    proof {
        wire.lemma_wf();
        water.lemma_wf();
    }
    let px = object.position.0 as usize;
    let py = object.position.1 as usize;
    if let ObjectType::BundleOutput { sub_bundle } = object.object_type {
        let x = px + 2;
        let y = py + 2;
        if let Some(bundle_id) = plugged_bundle_exec(wire, x, y) {
            let sub = sub_bundle as usize;
            let ghost cw = wire.w();
            let ghost s0 = sub_view(*water, *wire, *navigation, *walls_updated);
            let ghost id = bundle_id as int;
            output_color_exec(wire, x + 2, y, bundle_id, sub, WireColor::Purple);
            let ghost s1 = output_color(s0, cw, x + 2, y as int, id, sub as int, WireColor::Purple.idx());
            assert(wire_views(*wire) == s1.1 && wire.outputs() == s1.3);
            output_color_exec(wire, x + 2, y, bundle_id, sub, WireColor::Brown);
            let ghost s2 = output_color(s1, cw, x + 2, y as int, id, sub as int, WireColor::Brown.idx());
            assert(wire_views(*wire) == s2.1 && wire.outputs() == s2.3);
            output_color_exec(wire, x + 2, y, bundle_id, sub, WireColor::Blue);
            let ghost s3 = output_color(s2, cw, x + 2, y as int, id, sub as int, WireColor::Blue.idx());
            assert(wire_views(*wire) == s3.1 && wire.outputs() == s3.3);
            output_color_exec(wire, x + 2, y, bundle_id, sub, WireColor::Green);
            let ghost s4 = output_color(s3, cw, x + 2, y as int, id, sub as int, WireColor::Green.idx());
            assert(wire_views(*wire) == s4.1 && wire.outputs() == s4.3);
            assert(s4.0 == s0.0 && s4.2 == s0.2 && s4.4 == s0.4 && s4.5 == s0.5);
        }
    }
}

} // verus!

verus! {

/// What one object does on a physics update tick (see `object_step`).
pub fn update_object(
    object: &mut Object,
    water: &mut WaterGrid,
    wire: &mut WireGrid,
    navigation: &mut Navigation,
    walls_updated: &mut bool,
)
    requires
        step_pre(*old(object), *old(water), *old(wire), *old(navigation)),
    ensures
        step_post(
            *old(object),
            *final(object),
            *old(water),
            *final(water),
            *old(wire),
            *final(wire),
            *old(navigation),
            *final(navigation),
            *old(walls_updated),
            *final(walls_updated),
        ),
{
    match object.object_type {
        ObjectType::Door { .. } => update_door(object, water, wire, navigation, walls_updated),
        ObjectType::VerticalDoor { .. } => update_vertical_door(object, water, wire, navigation, walls_updated),
        ObjectType::Reactor { .. } => update_reactor(object, water, wire, navigation, walls_updated),
        ObjectType::Lamp => update_lamp(object, water, wire, navigation, walls_updated),
        ObjectType::Gauge { .. } => update_gauge(object, water, wire, navigation, walls_updated),
        ObjectType::SmallPump { .. } => update_small_pump(object, water, wire, navigation, walls_updated),
        ObjectType::LargePump { .. } => update_large_pump(object, water, wire, navigation, walls_updated),
        ObjectType::JunctionBox { .. } => update_junction_box(object, water, wire, navigation, walls_updated),
        ObjectType::NavController { .. } => update_nav_controller(object, water, wire, navigation, walls_updated),
        ObjectType::Sonar { .. } => update_sonar(object, water, wire, navigation, walls_updated),
        ObjectType::Engine { .. } => update_engine(object, water, wire, navigation, walls_updated),
        ObjectType::Battery { .. } => update_battery(object, water, wire, navigation, walls_updated),
        ObjectType::BundleInput { .. } => update_bundle_input(object, water, wire, navigation, walls_updated),
        ObjectType::BundleOutput { .. } => update_bundle_output(object, water, wire, navigation, walls_updated),
        ObjectType::DockingConnectorTop { .. } => update_docking_top(object, water, wire, navigation, walls_updated),
        ObjectType::DockingConnectorBottom { .. } => update_docking_bottom(
            object,
            water,
            wire,
            navigation,
            walls_updated,
        ),
    }
}

/// The first `n` objects updated one after the other, each acting on what
/// the ones before it left: the updated objects and the final view.
pub open spec fn objects_step(objects: Seq<Object>, ww: int, cw: int, s: SubView, n: nat) -> (Seq<Object>, SubView)
    decreases n,
{
    if n == 0 {
        (Seq::empty(), s)
    } else {
        let before = objects_step(objects, ww, cw, s, (n - 1) as nat);
        let r = object_step(objects[n - 1], ww, cw, before.1);
        (before.0.push(r.0), r.1)
    }
}

/// Every object can be updated on these grids.
pub open spec fn objects_ready(objects: Seq<Object>, water: WaterGrid, wire: WireGrid) -> bool {
    forall|i: int|
        0 <= i < objects.len() ==> object_ok(#[trigger] objects[i]) && object_fits(
            objects[i],
            water.w(),
            water.h(),
            wire.w(),
            wire.h(),
        )
}

/// Every object's update can run on the view the objects before it leave
/// (see `object_safe`).
pub open spec fn objects_safe(objects: Seq<Object>, ww: int, cw: int, s: SubView) -> bool {
    forall|i: int| 0 <= i < objects.len() ==> #[trigger] object_safe_at(objects, ww, cw, s, i)
}

/// The update of object `i` can run on the view the objects before it leave.
pub open spec fn object_safe_at(objects: Seq<Object>, ww: int, cw: int, s: SubView, i: int) -> bool {
    object_safe(objects[i], cw, objects_step(objects, ww, cw, s, i as nat).1)
}

/// The next object's update can run, whatever the walls flag says.
proof fn lemma_next_safe(objects: Seq<Object>, ww: int, cw: int, s: SubView, i: int)
    requires
        objects_safe(objects, ww, cw, s),
        0 <= i < objects.len(),
    ensures
        ({
            let r = objects_step(objects, ww, cw, s, i as nat).1;
            object_safe(objects[i], cw, (r.0, r.1, r.2, r.3, r.4, false))
        }),
{
    assert(object_safe_at(objects, ww, cw, s, i));
}

// What an object does on every physics update tick.
/// Updates every object of a submarine in order, each acting on the water
/// grid, the wire grid and the navigation as the ones before it left them
/// (see `object_step`); `walls_updated` is set when a door or docking
/// connector moved the hull.
pub fn update_objects(
    objects: &mut Vec<Object>,
    water: &mut WaterGrid,
    wire: &mut WireGrid,
    navigation: &mut Navigation,
    walls_updated: &mut bool,
)
    requires
        objects_ready(old(objects)@, *old(water), *old(wire)),
        grids_ok(*old(water), *old(wire)),
        objects_safe(
            old(objects)@,
            old(water).w(),
            old(wire).w(),
            sub_view(*old(water), *old(wire), *old(navigation), *old(walls_updated)),
        ),
    ensures
        grids_ok(*final(water), *final(wire)),
        grids_kept(*final(water), *final(wire), *old(water), *old(wire)),
        old(wire).signals_bounded() ==> final(wire).signals_bounded(),
        ({
            let r = objects_step(
                old(objects)@,
                old(water).w(),
                old(wire).w(),
                sub_view(*old(water), *old(wire), *old(navigation), *old(walls_updated)),
                old(objects)@.len(),
            );
            &&& final(objects)@ == r.0
            &&& sub_view(*final(water), *final(wire), *final(navigation), *final(walls_updated)) == r.1
        }),
{
    let ghost objects0 = objects@;
    let ghost water0 = *water;
    let ghost wire0 = *wire;
    let ghost s0 = sub_view(*water, *wire, *navigation, *walls_updated);
    let n = objects.len();
    let mut i: usize = 0;
    while i < n
        invariant
            n == objects0.len(),
            objects@.len() == n,
            i <= n,
            objects_ready(objects0, water0, wire0),
            grids_ok(*water, *wire),
            grids_kept(*water, *wire, water0, wire0),
            wire0.signals_bounded() ==> wire.signals_bounded(),
            objects_safe(objects0, water0.w(), wire0.w(), s0),
            forall|j: int| i <= j < n ==> #[trigger] objects@[j] == objects0[j],
            ({
                let r = objects_step(objects0, water0.w(), wire0.w(), s0, i as nat);
                &&& objects@.subrange(0, i as int) == r.0
                &&& sub_view(*water, *wire, *navigation, *walls_updated) == r.1
            }),
        decreases n - i,
    {
        let ghost before = objects@;
        proof {
            lemma_next_safe(objects0, water0.w(), wire0.w(), s0, i as int);
        }
        let mut object = objects[i];
        update_object(&mut object, water, wire, navigation, walls_updated);
        objects.set(i, object);
        proof {
            let r = objects_step(objects0, water0.w(), wire0.w(), s0, i as nat);
            assert(objects@.subrange(0, i + 1) == before.subrange(0, i as int).push(object));
        }
        i = i + 1;
    }
    proof {
        assert(objects@.subrange(0, n as int) == objects@);
    }
}

} // verus!

verus! {

/// A door obeys the logic value arriving at its left input (or, when none
/// arrives there, at its right input): a positive value opens it, a negative
/// one closes it, zero turns it around, and no value leaves its direction.
/// An opening door then moves one step further open (up to 15), a closing
/// one one step further shut (down to 0); its place never changes.
pub proof fn law_door_follows_logic(o: Object, ww: int, cw: int, s: SubView)
    requires
        o.object_type is Door,
    ensures
        ({
            let px = o.position.0 as int;
            let py = o.position.1 as int;
            let left = logic_at(s, cw, px + 2, py + 4);
            let v = if left is Some {
                left
            } else {
                logic_at(s, cw, px + 19, py + 4)
            };
            let r = object_step(o, ww, cw, s).0;
            let state = o.object_type->Door_state;
            let progress = o.object_type->Door_progress;
            &&& r.object_type is Door
            &&& r.position == o.position
            &&& (v matches Some(x) && x > 0) ==> r.object_type->Door_state == DoorState::Opening
            &&& (v matches Some(x) && x < 0) ==> r.object_type->Door_state == DoorState::Closing
            &&& v == Some(0i8) ==> r.object_type->Door_state == state.toggled()
            &&& v is None ==> r.object_type->Door_state == state
            &&& r.object_type->Door_state == DoorState::Opening ==> r.object_type->Door_progress == if progress < 15 {
                progress + 1
            } else {
                15
            }
            &&& r.object_type->Door_state == DoorState::Closing ==> r.object_type->Door_progress == if progress > 0 {
                progress - 1
            } else {
                0
            }
        }),
{
}

/// The game's own bounds on an object's counters: doors, junction boxes and
/// docking connectors move between 0 and 15, navigation controllers count
/// below 40, batteries hold at most 5400 and sub-bundles are below 8.
pub open spec fn counters_bounded(o: Object) -> bool {
    match o.object_type {
        ObjectType::Door { progress, .. } => progress <= 15,
        ObjectType::VerticalDoor { progress, .. } => progress <= 15,
        ObjectType::JunctionBox { progress, .. } => progress <= 15,
        ObjectType::NavController { progress, .. } => progress < 40,
        ObjectType::Battery { charge } => charge <= 5400,
        ObjectType::BundleInput { sub_bundle } => sub_bundle < 8,
        ObjectType::BundleOutput { sub_bundle } => sub_bundle < 8,
        ObjectType::DockingConnectorTop { progress, .. } => progress <= 15,
        ObjectType::DockingConnectorBottom { progress, .. } => progress <= 15,
        _ => true,
    }
}

/// Which kind of object it is.
pub open spec fn kind_of(t: ObjectType) -> int {
    match t {
        ObjectType::Door { .. } => 0,
        ObjectType::VerticalDoor { .. } => 1,
        ObjectType::Reactor { .. } => 2,
        ObjectType::Lamp => 3,
        ObjectType::Gauge { .. } => 4,
        ObjectType::SmallPump { .. } => 5,
        ObjectType::LargePump { .. } => 6,
        ObjectType::JunctionBox { .. } => 7,
        ObjectType::NavController { .. } => 8,
        ObjectType::Sonar { .. } => 9,
        ObjectType::Engine { .. } => 10,
        ObjectType::Battery { .. } => 11,
        ObjectType::BundleInput { .. } => 12,
        ObjectType::BundleOutput { .. } => 13,
        ObjectType::DockingConnectorTop { .. } => 14,
        ObjectType::DockingConnectorBottom { .. } => 15,
    }
}

/// One object's update keeps its counters within the game's bounds, its
/// kind and its place.
#[verifier::spinoff_prover]
#[verifier::rlimit(60)]
pub proof fn law_object_step_keeps_counters(o: Object, ww: int, cw: int, s: SubView)
    requires
        counters_bounded(o),
    ensures
        counters_bounded(object_step(o, ww, cw, s).0),
        kind_of(object_step(o, ww, cw, s).0.object_type) == kind_of(o.object_type),
        object_step(o, ww, cw, s).0.position == o.position,
{
}

/// Updating all objects of a submarine (see `update_objects`) keeps every
/// object's counters within the game's bounds, and keeps the objects, their
/// kinds and their places.
pub proof fn law_update_keeps_counters(objects: Seq<Object>, ww: int, cw: int, s: SubView, n: nat)
    requires
        n <= objects.len(),
        forall|i: int| 0 <= i < objects.len() ==> counters_bounded(#[trigger] objects[i]),
    ensures
        objects_step(objects, ww, cw, s, n).0.len() == n,
        forall|i: int|
            0 <= i < n ==> counters_bounded(#[trigger] objects_step(objects, ww, cw, s, n).0[i]) && kind_of(
                objects_step(objects, ww, cw, s, n).0[i].object_type,
            ) == kind_of(objects[i].object_type) && objects_step(objects, ww, cw, s, n).0[i].position
                == objects[i].position,
    decreases n,
{
    if n > 0 {
        law_update_keeps_counters(objects, ww, cw, s, (n - 1) as nat);
        let before = objects_step(objects, ww, cw, s, (n - 1) as nat);
        law_object_step_keeps_counters(objects[n - 1], ww, cw, before.1);
        let after = objects_step(objects, ww, cw, s, n);
        assert forall|i: int| 0 <= i < n implies counters_bounded(#[trigger] after.0[i]) && kind_of(
            after.0[i].object_type,
        ) == kind_of(objects[i].object_type) && after.0[i].position == objects[i].position by {
            if i < n - 1 {
                assert(after.0[i] == before.0[i]);
            }
        }
    }
}

} // verus!
