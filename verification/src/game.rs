//! The whole game state, and the only two ways it changes: a list of
//! commands, applied in order, and one tick of the simulation.

use crate::grid::cell_index;
use crate::objects::{interact_with_object, interacted, Object, ObjectType};
use crate::saveload::CellTemplate;
use crate::sonar::Sonar;
use crate::state::{Navigation, SubmarineState};
use crate::water::{cleared, grid_size_ok, WaterCell, WaterGrid, FILL_AMOUNT, MAX_VELOCITY};
use crate::wires::{interior_point, other_than, wire_made, WireColor, WireGrid, WirePoints, WireValue};
use crate::rocks::RockGrid;
use crate::collisions::{edges_fit, hull_collisions, hull_edges_fit, offset_fits, rock_collisions, update_rock_collisions, update_submarine_collisions};
use crate::docking::{dock_i, initial_docks, moved_position, positions_ok, same_but_docking, update_docking_points, update_position};
use crate::navigation::{navigated, update_navigation};
use crate::object_update::{grids_kept, grids_ok, objects_ready, objects_safe, objects_step, sub_view, update_objects};
use vstd::prelude::*;

verus! {

/// Which parts of the simulation run on a tick.
#[derive(Clone, Copy, PartialEq, Eq, Structural, Debug)]
pub struct UpdateSettings {
    pub update_water: bool,
    pub enable_gravity: bool,
    pub enable_inertia: bool,
    pub update_wires: bool,
    pub update_sonar: bool,
    pub update_objects: bool,
    pub update_position: bool,
    pub update_collision: bool,
}

impl Default for UpdateSettings {
    /// Everything runs.
    fn default() -> (r: Self)
        ensures
            r == (UpdateSettings {
                update_water: true,
                enable_gravity: true,
                enable_inertia: true,
                update_wires: true,
                update_sonar: true,
                update_objects: true,
                update_position: true,
                update_collision: true,
            }),
    {
        UpdateSettings {
            update_water: true,
            enable_gravity: true,
            enable_inertia: true,
            update_wires: true,
            update_sonar: true,
            update_objects: true,
            update_position: true,
            update_collision: true,
        }
    }
}

/// A submarine as it is stored: its size, its cells, its background, its
/// objects and its wires.
pub struct SubmarineTemplate {
    pub size: (usize, usize),
    pub water_cells: Vec<CellTemplate>,
    pub background_pixels: Vec<u8>,
    pub objects: Vec<Object>,
    pub wire_points: Vec<WirePoints>,
}

/// Everything that is simulated.
pub struct GameState {
    pub update_settings: UpdateSettings,
    pub rock_grid: RockGrid,
    pub submarines: Vec<SubmarineState>,
    pub collisions: Vec<(usize, usize)>,
}

/// An edit of one cell of a submarine.
#[derive(Clone, Copy, Debug)]
pub enum CellCommand {
    EditWires { add: bool, color: WireColor },
    EditWalls { add: bool },
    EditWater { add: bool },
    AddObject { object_type: ObjectType },
}

/// A request to change the game state, made by the interface or a player.
pub enum Command {
    Interact { submarine_id: usize, object_id: usize },
    Cell { submarine_id: usize, cell: (usize, usize), cell_command: CellCommand },
    ClearWater { submarine_id: usize },
    ChangeUpdateSettings { update_settings: UpdateSettings },
    SetSonarTarget { submarine_id: usize, object_id: usize, rock_position: (usize, usize) },
    CreateSubmarine { submarine_template: Box<SubmarineTemplate>, rock_position: (usize, usize) },
}

/// What changed in a submarine, for whoever draws it.
#[derive(Clone, Copy, PartialEq, Eq, Structural, Debug)]
pub enum SubmarineUpdatedEvent {
    Sonar,
    Walls,
    Wires,
    Signals,
}

/// What changed in the game.
#[derive(Clone, Copy, PartialEq, Eq, Structural, Debug)]
pub enum UpdateEvent {
    Submarine { submarine_id: usize, submarine_event: SubmarineUpdatedEvent },
    SubmarineCreated,
    GameStateReset,
}

/// The grids of a submarine fit each other and every edit of them.
pub open spec fn sub_wf(sub: SubmarineState) -> bool {
    &&& sub.water_grid.wf()
    &&& sub.wire_grid.wf()
    &&& sub.water_grid.w() == sub.wire_grid.w()
    &&& sub.water_grid.h() == sub.wire_grid.h()
    &&& 2 <= sub.wire_grid.w() < i32::MAX
    &&& sub.wire_grid.h() < i32::MAX
}

impl GameState {
    pub open spec fn wf(&self) -> bool {
        forall|i: int| 0 <= i < self.submarines@.len() ==> sub_wf(#[trigger] self.submarines@[i])
    }
}

/// A template that a submarine can be built from.
pub open spec fn template_ok(t: SubmarineTemplate) -> bool {
    let (width, height) = t.size;
    &&& grid_size_ok(width as int, height as int)
    &&& t.water_cells@.len() == width * height
    &&& 2 <= width < i32::MAX
    &&& height < i32::MAX
    &&& forall|i: int, j: int|
        0 <= i < t.wire_points@.len() && 0 <= j < t.wire_points@[i].1@.len() ==> {
            let pt = #[trigger] t.wire_points@[i].1@[j];
            &&& pt.0 < width && pt.1 < height
            &&& t.wire_points@[i].0 == WireColor::Bundle ==> interior_point(width as int, height as int, pt)
        }
}

/// Every submarine that the commands create has a template it can be built from.
pub open spec fn commands_ok(commands: Seq<Command>) -> bool {
    forall|i: int|
        0 <= i < commands.len() ==> match #[trigger] commands[i] {
            Command::CreateSubmarine { submarine_template, .. } => template_ok(*submarine_template),
            _ => true,
        }
}

/// The two submarines agree but for the parts marked as free.
pub open spec fn same_except(a: SubmarineState, b: SubmarineState, water: bool, wire: bool, objects: bool) -> bool {
    &&& b.background_pixels == a.background_pixels
    &&& water || b.water_grid == a.water_grid
    &&& wire || b.wire_grid == a.wire_grid
    &&& objects || b.objects == a.objects
    &&& b.sonar == a.sonar
    &&& b.navigation == a.navigation
    &&& b.collisions == a.collisions
    &&& b.docking_points == a.docking_points
}

/// Only submarine `id` may differ between the two states.
pub open spec fn others_kept(s: GameState, s2: GameState, id: int) -> bool {
    &&& s2.update_settings == s.update_settings
    &&& s2.rock_grid == s.rock_grid
    &&& s2.collisions == s.collisions
    &&& s2.submarines@.len() == s.submarines@.len()
    &&& forall|j: int| 0 <= j < s.submarines@.len() && j != id ==> #[trigger] s2.submarines@[j] == s.submarines@[j]
}

/// Water grid `b` is `a` with cell `k` replaced by `c`.
pub open spec fn water_cell_set(a: WaterGrid, b: WaterGrid, k: int, c: WaterCell) -> bool {
    &&& b.wf()
    &&& b.w() == a.w()
    &&& b.h() == a.h()
    &&& b.spec_total_water() == a.spec_total_water()
    &&& b.spec_edges() == a.spec_edges()
    &&& b.cells() == a.cells().update(k, c)
}

/// A cell after water is poured in, as long as the amount fits.
pub open spec fn fill_fits(c: WaterCell) -> bool {
    &&& c.velocity_ok()
    &&& c.spec_is_inside() ==> c.spec_level() + FILL_AMOUNT <= u32::MAX
}

pub open spec fn filled(c: WaterCell) -> WaterCell {
    (if c.spec_is_inside() {
        c.with_level((c.spec_level() + FILL_AMOUNT) as u32)
    } else {
        c
    }).replanned()
}

pub open spec fn emptied(c: WaterCell) -> WaterCell {
    (if c.spec_is_inside() {
        c.with_level(0)
    } else {
        c
    }).replanned()
}

/// Wire grid `b` is `a` with wire `color` taken out of `(x, y)` (see
/// `WireGrid::clear_wire`).
pub open spec fn wire_cleared(a: WireGrid, b: WireGrid, x: usize, y: usize, color: WireColor) -> bool {
    &&& b.wf()
    &&& b.w() == a.w()
    &&& b.h() == a.h()
    &&& b.inputs() == a.inputs()
    &&& b.outputs() == a.outputs()
    &&& color == WireColor::Bundle ==> b.cells() == a.cells()
    &&& color != WireColor::Bundle ==> b.cells() == a.cells().update(
        cell_index(a.w(), x as int, y as int),
        a.cells()[cell_index(a.w(), x as int, y as int)].with_value(color.idx(), WireValue::NotConnected),
    )
    &&& forall|c: int|
        0 <= c < 5 ==> #[trigger] b.wires(c) == if c == color.idx() && color != WireColor::Bundle
            && crate::wires::in_wire_area(a.w(), a.h(), (x, y)) {
            a.wires(c).filter(other_than((x, y)))
        } else {
            a.wires(c)
        }
}

/// A bundle wire is only laid away from the grid's border, where all its
/// neighbours exist.
pub open spec fn wire_edit_fits(g: WireGrid, x: usize, y: usize, color: WireColor) -> bool {
    color == WireColor::Bundle ==> 1 <= x && x + 1 < g.w() && 1 <= y && y + 1 < g.h()
}

/// An edit of cell `(x, y)` can be carried out: pouring water in needs
/// room in the cell's level, and water edits need a velocity the cell can
/// replan with; a bundle wire is laid only away from the border.
pub open spec fn cell_edit_fits(a: SubmarineState, x: usize, y: usize, command: CellCommand) -> bool {
    let cell = a.water_grid.cells()[cell_index(a.water_grid.w(), x as int, y as int)];
    match command {
        CellCommand::EditWater { add } => if add {
            fill_fits(cell)
        } else {
            cell.velocity_ok()
        },
        CellCommand::EditWires { add, color } => !add || wire_edit_fits(a.wire_grid, x, y, color),
        _ => true,
    }
}

/// The event an edit reports.
pub open spec fn cell_event(a: SubmarineState, x: usize, y: usize, command: CellCommand) -> Option<
    SubmarineUpdatedEvent,
> {
    if !cell_edit_fits(a, x, y, command) {
        None
    } else {
        match command {
            CellCommand::EditWater { .. } => Some(SubmarineUpdatedEvent::Walls),
            CellCommand::EditWalls { .. } => Some(SubmarineUpdatedEvent::Walls),
            CellCommand::EditWires { .. } => Some(SubmarineUpdatedEvent::Wires),
            CellCommand::AddObject { .. } => None,
        }
    }
}

/// What an edit of cell `(x, y)` does to a submarine; an edit that cannot
/// be carried out (see `cell_edit_fits`) leaves it as it is.
pub open spec fn cell_edited(a: SubmarineState, b: SubmarineState, x: usize, y: usize, command: CellCommand) -> bool {
    let k = cell_index(a.water_grid.w(), x as int, y as int);
    let cell = a.water_grid.cells()[k];
    if !cell_edit_fits(a, x, y, command) {
        b == a
    } else {
        match command {
            CellCommand::EditWater { add } => {
                &&& same_except(a, b, true, false, false)
                &&& water_cell_set(a.water_grid, b.water_grid, k, if add { filled(cell) } else { emptied(cell) })
            },
            CellCommand::EditWalls { add } => {
                &&& same_except(a, b, true, false, false)
                &&& water_cell_set(
                    a.water_grid,
                    b.water_grid,
                    k,
                    if add {
                        cell.with_kind(crate::water::CellType::Wall { wall_reflect: [0, 0, 0, 0] })
                    } else if cell.spec_is_wall() {
                        WaterCell::spec_empty_inside()
                    } else {
                        cell
                    },
                )
            },
            CellCommand::EditWires { add, color } => {
                &&& same_except(a, b, false, true, false)
                &&& if add {
                    wire_made(a.wire_grid, b.wire_grid, x, y, color)
                } else {
                    wire_cleared(a.wire_grid, b.wire_grid, x, y, color)
                }
            },
            CellCommand::AddObject { object_type } => {
                &&& same_except(a, b, false, false, true)
                &&& b.objects@ == a.objects@.push(
                    Object { object_type, position: (x as u32, y as u32), powered: false },
                )
            },
        }
    }
}

/// Edits cell `(x, y)` of a submarine (see `cell_edited`), and says what
/// changed.
pub fn edit_cell(sub: &mut SubmarineState, x: usize, y: usize, command: CellCommand) -> (event: Option<
    SubmarineUpdatedEvent,
>)
    requires
        sub_wf(*old(sub)),
        x < old(sub).water_grid.w(),
        y < old(sub).water_grid.h(),
    ensures
        sub_wf(*final(sub)),
        cell_edited(*old(sub), *final(sub), x, y, command),
        event == cell_event(*old(sub), x, y, command),
{
    proof {
        sub.water_grid.lemma_wf();
    }
    match command {
        CellCommand::EditWater { add } => {
            let cell = sub.water_grid.cell(x, y);
            let (vx, vy) = cell.velocity();
            if vx < -MAX_VELOCITY || vx > MAX_VELOCITY || vy < -MAX_VELOCITY || vy > MAX_VELOCITY {
                return None;
            }
            if add && cell.is_inside() && cell.level() > u32::MAX - FILL_AMOUNT {
                return None;
            }
            let c = sub.water_grid.cell_mut(x, y);
            if add {
                c.fill();
            } else {
                c.empty();
            }
            Some(SubmarineUpdatedEvent::Walls)
        },
        CellCommand::EditWalls { add } => {
            let c = sub.water_grid.cell_mut(x, y);
            if add {
                c.make_wall();
            } else {
                c.clear_wall();
            }
            Some(SubmarineUpdatedEvent::Walls)
        },
        CellCommand::EditWires { add, color } => {
            if add {
                if color == WireColor::Bundle {
                    let (w, h) = sub.wire_grid.size();
                    if x < 1 || x + 1 >= w || y < 1 || y + 1 >= h {
                        return None;
                    }
                }
                sub.wire_grid.make_wire(x, y, color);
            } else {
                sub.wire_grid.clear_wire(x, y, color);
            }
            Some(SubmarineUpdatedEvent::Wires)
        },
        CellCommand::AddObject { object_type } => {
            sub.objects.push(Object { object_type, position: (x as u32, y as u32), powered: false });
            None
        },
    }
}

/// An interaction that the object can take: a bundle plug's sub-bundle
/// can be counted up.
pub open spec fn interact_fits(o: Object) -> bool {
    match o.object_type {
        ObjectType::BundleInput { sub_bundle } => sub_bundle < 255,
        ObjectType::BundleOutput { sub_bundle } => sub_bundle < 255,
        _ => true,
    }
}

/// Water grid `b` is `a` with all its water taken out (see `WaterGrid::clear`).
pub open spec fn water_cleared(a: WaterGrid, b: WaterGrid) -> bool {
    &&& b.wf()
    &&& b.w() == a.w()
    &&& b.h() == a.h()
    &&& b.spec_total_water() == a.spec_total_water()
    &&& b.spec_edges() == a.spec_edges()
    &&& b.cells().len() == a.cells().len()
    &&& forall|k: int| 0 <= k < b.cells().len() ==> #[trigger] b.cells()[k] == cleared(a.cells()[k])
}

/// The water grid that `WaterGrid::from_cells` builds from a template.
pub open spec fn water_from_cells(g: WaterGrid, width: usize, height: usize, cells: Seq<CellTemplate>) -> bool {
    &&& g.wf()
    &&& g.w() == width
    &&& g.h() == height
    &&& g.spec_total_water() == 0
    &&& forall|k: int|
        0 <= k < g.cells().len() ==> #[trigger] g.cells()[k] == crate::water::templated_cell(
            crate::water::initial_cell(width as int, height as int, k),
            cells[k],
        )
    &&& g.spec_edges() == g.edge_rows(g.h() - 1)
}

/// The wire grid that `WireGrid::from_wire_points` draws from a template.
pub open spec fn wires_from_points(g: WireGrid, width: usize, height: usize, points: Seq<WirePoints>) -> bool {
    &&& g.wf()
    &&& g.w() == width
    &&& g.h() == height
    &&& forall|x: int, y: int, c: int|
        g.in_bounds(x, y) && 1 <= c < 5 ==> #[trigger] g.value_at(x, y, c) == if crate::wires::drawn(
            points,
            c,
            x,
            y,
        ) {
            WireValue::NoSignal { terminal: false }
        } else {
            WireValue::NotConnected
        }
    &&& forall|x: int, y: int|
        g.in_bounds(x, y) && (#[trigger] g.value_at(x, y, 0)).connected() ==> crate::wires::drawn(points, 0, x, y)
    &&& exists|states: Seq<WireGrid>|
        crate::wires::wires_laid(states, crate::wires::laid_cells(points, points.len() as int))
            && crate::wires::is_new_grid(states[0], width as int, height as int) && states.last() == g
}

/// A submarine built from template `t` at `rock_position`: the template's
/// grids, background and objects, resting at that position.
pub open spec fn created(t: SubmarineTemplate, rock_position: (usize, usize), b: SubmarineState) -> bool {
    let p = (rock_position.0 as i32, rock_position.1 as i32);
    &&& b.background_pixels == t.background_pixels
    &&& b.objects == t.objects
    &&& water_from_cells(b.water_grid, t.size.0, t.size.1, t.water_cells@)
    &&& wires_from_points(b.wire_grid, t.size.0, t.size.1, t.wire_points@)
    &&& b.navigation == Navigation {
        target: p,
        position: p,
        speed: (0, 0),
        docking_override: (0, 0),
        acceleration: (0, 0),
    }
    &&& b.sonar.spec_visible_edge_cells().len() == 0
    &&& b.sonar.spec_pulse() == 0
    &&& b.collisions@.len() == 0
    &&& b.docking_points@.len() == 0
}

/// What one command does to the state and the events. Commands that name a
/// submarine, object or cell that does not exist are ignored, as are those
/// that cannot be carried out (see `interact_fits` and `cell_edit_fits`).
pub open spec fn command_applied(
    s: GameState,
    e: Seq<UpdateEvent>,
    c: Command,
    s2: GameState,
    e2: Seq<UpdateEvent>,
) -> bool {
    let subs = s.submarines@;
    match c {
        Command::Interact { submarine_id, object_id } => if submarine_id < subs.len() && object_id
            < subs[submarine_id as int].objects@.len() && interact_fits(
            subs[submarine_id as int].objects@[object_id as int],
        ) {
            let a = subs[submarine_id as int];
            let b = s2.submarines@[submarine_id as int];
            let o = a.objects@[object_id as int];
            &&& others_kept(s, s2, submarine_id as int)
            &&& same_except(a, b, false, false, true)
            &&& b.objects@ == a.objects@.update(
                object_id as int,
                Object { object_type: interacted(o.object_type), ..o },
            )
            &&& e2 == e
        } else {
            s2 == s && e2 == e
        },
        Command::Cell { submarine_id, cell, cell_command } => if submarine_id < subs.len() && cell.0
            < subs[submarine_id as int].water_grid.w() && cell.1 < subs[submarine_id as int].water_grid.h() {
            let a = subs[submarine_id as int];
            &&& others_kept(s, s2, submarine_id as int)
            &&& cell_edited(a, s2.submarines@[submarine_id as int], cell.0, cell.1, cell_command)
            &&& e2 == match cell_event(a, cell.0, cell.1, cell_command) {
                Some(event) => e.push(UpdateEvent::Submarine { submarine_id, submarine_event: event }),
                None => e,
            }
        } else {
            s2 == s && e2 == e
        },
        Command::ClearWater { submarine_id } => if submarine_id < subs.len() {
            let a = subs[submarine_id as int];
            let b = s2.submarines@[submarine_id as int];
            &&& others_kept(s, s2, submarine_id as int)
            &&& same_except(a, b, true, false, false)
            &&& water_cleared(a.water_grid, b.water_grid)
            &&& e2 == e
        } else {
            s2 == s && e2 == e
        },
        Command::ChangeUpdateSettings { update_settings } => {
            &&& s2.update_settings == update_settings
            &&& s2.rock_grid == s.rock_grid
            &&& s2.submarines == s.submarines
            &&& s2.collisions == s.collisions
            &&& e2 == e
        },
        Command::SetSonarTarget { submarine_id, object_id, rock_position } => if submarine_id < subs.len()
            && object_id < subs[submarine_id as int].objects@.len()
            && subs[submarine_id as int].objects@[object_id as int].object_type is Sonar {
            let a = subs[submarine_id as int];
            let b = s2.submarines@[submarine_id as int];
            let o = a.objects@[object_id as int];
            &&& others_kept(s, s2, submarine_id as int)
            &&& same_except(a, b, false, false, true)
            &&& b.objects@ == a.objects@.update(
                object_id as int,
                Object {
                    object_type: ObjectType::Sonar {
                        active: o.object_type->Sonar_active,
                        navigation_target: Some(rock_position),
                    },
                    ..o
                },
            )
            &&& e2 == e
        } else {
            s2 == s && e2 == e
        },
        Command::CreateSubmarine { submarine_template, rock_position } => {
            &&& s2.update_settings == s.update_settings
            &&& s2.rock_grid == s.rock_grid
            &&& s2.collisions == s.collisions
            &&& s2.submarines@.len() == subs.len() + 1
            &&& forall|j: int| 0 <= j < subs.len() ==> #[trigger] s2.submarines@[j] == subs[j]
            &&& created(*submarine_template, rock_position, s2.submarines@[subs.len() as int])
            &&& e2 == e.push(UpdateEvent::SubmarineCreated)
        },
    }
}

/// A command addressed to a submarine that does not exist changes neither
/// the state nor the events.
pub proof fn law_missing_submarine_ignored(
    s: GameState,
    e: Seq<UpdateEvent>,
    c: Command,
    s2: GameState,
    e2: Seq<UpdateEvent>,
)
    requires
        match c {
            Command::Interact { submarine_id, .. } => submarine_id >= s.submarines@.len(),
            Command::Cell { submarine_id, .. } => submarine_id >= s.submarines@.len(),
            Command::ClearWater { submarine_id } => submarine_id >= s.submarines@.len(),
            Command::SetSonarTarget { submarine_id, .. } => submarine_id >= s.submarines@.len(),
            _ => false,
        },
        command_applied(s, e, c, s2, e2),
    ensures
        s2 == s,
        e2 == e,
{
}

/// `trace` lists the states and events from before the first command to
/// after the last, each command taking one to the next.
pub open spec fn commands_trace(
    commands: Seq<Command>,
    trace: Seq<(GameState, Seq<UpdateEvent>)>,
) -> bool {
    &&& trace.len() == commands.len() + 1
    &&& forall|i: int|
        0 <= i < commands.len() ==> command_applied(
            trace[i].0,
            trace[i].1,
            #[trigger] commands[i],
            trace[i + 1].0,
            trace[i + 1].1,
        )
}

/// The commands applied one after the other, each to the state the ones
/// before it left.
pub open spec fn commands_applied(
    s: GameState,
    e: Seq<UpdateEvent>,
    commands: Seq<Command>,
    s2: GameState,
    e2: Seq<UpdateEvent>,
) -> bool {
    exists|trace: Seq<(GameState, Seq<UpdateEvent>)>|
        #[trigger] commands_trace(commands, trace) && trace[0] == (s, e) && trace.last() == (s2, e2)
}

fn interact_command(sub: &mut SubmarineState, object_id: usize)
    requires
        object_id < old(sub).objects@.len(),
        interact_fits(old(sub).objects@[object_id as int]),
    ensures
        same_except(*old(sub), *final(sub), false, false, true),
        final(sub).objects@ == old(sub).objects@.update(
            object_id as int,
            Object { object_type: interacted(old(sub).objects@[object_id as int].object_type), ..old(sub).objects@[object_id as int] },
        ),
{
    let mut object = sub.objects[object_id];
    interact_with_object(&mut object);
    sub.objects.set(object_id, object);
}

fn sonar_command(sub: &mut SubmarineState, object_id: usize, rock_position: (usize, usize))
    requires
        object_id < old(sub).objects@.len(),
        old(sub).objects@[object_id as int].object_type is Sonar,
    ensures
        same_except(*old(sub), *final(sub), false, false, true),
        ({
            let o = old(sub).objects@[object_id as int];
            final(sub).objects@ == old(sub).objects@.update(
                object_id as int,
                Object {
                    object_type: ObjectType::Sonar {
                        active: o.object_type->Sonar_active,
                        navigation_target: Some(rock_position),
                    },
                    ..o
                },
            )
        }),
{
    let mut object = sub.objects[object_id];
    if let ObjectType::Sonar { active, .. } = object.object_type {
        object.object_type = ObjectType::Sonar { active, navigation_target: Some(rock_position) };
    }
    sub.objects.set(object_id, object);
}

/// Builds a submarine from a template, resting at `rock_position` (see
/// `created`).
pub fn create_submarine(template: SubmarineTemplate, rock_position: (usize, usize)) -> (b: SubmarineState)
    requires
        template_ok(template),
    ensures
        created(template, rock_position, b),
        sub_wf(b),
{
    let (width, height) = template.size;
    let position = (rock_position.0 as i32, rock_position.1 as i32);
    let water_grid = WaterGrid::from_cells(width, height, &template.water_cells);
    let wire_grid = WireGrid::from_wire_points(width, height, &template.wire_points);
    SubmarineState {
        background_pixels: template.background_pixels,
        water_grid,
        wire_grid,
        objects: template.objects,
        navigation: Navigation {
            target: position,
            position,
            speed: (0, 0),
            docking_override: (0, 0),
            acceleration: (0, 0),
        },
        sonar: Sonar::default(),
        collisions: Vec::new(),
        docking_points: Vec::new(),
    }
}

/// Applies one command (see `command_applied`).
pub fn apply_command(command: Command, game_state: &mut GameState, events: &mut Vec<UpdateEvent>)
    requires
        old(game_state).wf(),
        commands_ok(seq![command]),
    ensures
        final(game_state).wf(),
        command_applied(*old(game_state), old(events)@, command, *final(game_state), final(events)@),
{
    proof {
        assert(seq![command][0] == command);
    }
    let ghost s0 = *game_state;
    match command {
        Command::Interact { submarine_id, object_id } => {
            if submarine_id < game_state.submarines.len() {
                if object_id < game_state.submarines[submarine_id].objects.len() {
                    let fits = match game_state.submarines[submarine_id].objects[object_id].object_type {
                        ObjectType::BundleInput { sub_bundle } => sub_bundle < 255,
                        ObjectType::BundleOutput { sub_bundle } => sub_bundle < 255,
                        _ => true,
                    };
                    if fits {
                        interact_command(&mut game_state.submarines[submarine_id], object_id);
                        proof {
                            assert(sub_wf(game_state.submarines@[submarine_id as int]));
                        }
                    }
                }
            }
        },
        Command::Cell { submarine_id, cell, cell_command } => {
            if submarine_id < game_state.submarines.len() {
                let (width, height) = game_state.submarines[submarine_id].water_grid.size();
                if cell.0 < width && cell.1 < height {
                    proof {
                        assert(sub_wf(game_state.submarines@[submarine_id as int]));
                    }
                    let event = edit_cell(&mut game_state.submarines[submarine_id], cell.0, cell.1, cell_command);
                    if let Some(submarine_event) = event {
                        events.push(UpdateEvent::Submarine { submarine_id, submarine_event });
                    }
                }
            }
        },
        Command::ClearWater { submarine_id } => {
            if submarine_id < game_state.submarines.len() {
                proof {
                    assert(sub_wf(game_state.submarines@[submarine_id as int]));
                }
                game_state.submarines[submarine_id].water_grid.clear();
            }
        },
        Command::ChangeUpdateSettings { update_settings } => {
            game_state.update_settings = update_settings;
        },
        Command::SetSonarTarget { submarine_id, object_id, rock_position } => {
            if submarine_id < game_state.submarines.len() {
                if object_id < game_state.submarines[submarine_id].objects.len() {
                    let is_sonar = match game_state.submarines[submarine_id].objects[object_id].object_type {
                        ObjectType::Sonar { .. } => true,
                        _ => false,
                    };
                    if is_sonar {
                        sonar_command(&mut game_state.submarines[submarine_id], object_id, rock_position);
                    }
                }
            }
        },
        Command::CreateSubmarine { submarine_template, rock_position } => {
            let sub = create_submarine(*submarine_template, rock_position);
            game_state.submarines.push(sub);
            events.push(UpdateEvent::SubmarineCreated);
        },
    }
}

/// Applies the commands in order (see `commands_applied`). This is the
/// only way the game state changes besides a tick.
pub fn update_state_from_commands(
    commands: Vec<Command>,
    game_state: &mut GameState,
    events: &mut Vec<UpdateEvent>,
)
    requires
        old(game_state).wf(),
        commands_ok(commands@),
    ensures
        final(game_state).wf(),
        commands_applied(*old(game_state), old(events)@, commands@, *final(game_state), final(events)@),
{
    let ghost s0 = *game_state;
    let ghost e0 = events@;
    let ghost all = commands@;
    let ghost mut trace: Seq<(GameState, Seq<UpdateEvent>)> = seq![(s0, e0)];
    let mut rest = commands;
    let n = rest.len();
    let mut i: usize = 0;
    while i < n
        invariant
            n == all.len(),
            i <= n,
            rest@ == all.subrange(i as int, n as int),
            commands_ok(all),
            game_state.wf(),
            commands_trace(all.take(i as int), trace),
            trace[0] == (s0, e0),
            trace.last() == (*game_state, events@),
        decreases n - i,
    {
        let ghost before = trace;
        let command = rest.remove(0);
        proof {
            assert(command == all[i as int]);
            assert(seq![command][0] == command);
        }
        apply_command(command, game_state, events);
        proof {
            trace = before.push((*game_state, events@));
            let t = all.take(i + 1);
            assert forall|j: int| 0 <= j < t.len() implies command_applied(
                trace[j].0,
                trace[j].1,
                #[trigger] t[j],
                trace[j + 1].0,
                trace[j + 1].1,
            ) by {
                if j < i {
                    assert(t[j] == all.take(i as int)[j]);
                }
            }
            assert(rest@ =~= all.subrange(i + 1, n as int));
        }
        i = i + 1;
    }
    proof {
        assert(all.take(n as int) =~= all);
        assert(commands_trace(all, trace));
    }
}

/// The navigation part of a tick: steered by buoyancy and docking (see
/// `update_navigation`), when positions are updated.
pub open spec fn navigation_ticked(settings: UpdateSettings, a: SubmarineState, b: SubmarineState) -> bool {
    if settings.update_position {
        &&& b.navigation == navigated(
            a.navigation,
            a.docking_points@,
            a.water_grid.spec_total_walls() as int,
            a.water_grid.spec_total_inside() as int,
            a.water_grid.spec_total_water() as int,
        )
        &&& b.water_grid == a.water_grid
        &&& b.wire_grid == a.wire_grid
        &&& b.objects@ == a.objects@
        &&& b.sonar == a.sonar
        &&& b.collisions@ == a.collisions@
        &&& b.docking_points@ == a.docking_points@
        &&& b.background_pixels@ == a.background_pixels@
    } else {
        b == a
    }
}

/// Water grid `b` is `a` after one flow step (see `WaterGrid::update`).
pub open spec fn water_updated(a: WaterGrid, b: WaterGrid, gravity: bool, inertia: bool) -> bool {
    &&& b.wf()
    &&& b.w() == a.w()
    &&& b.h() == a.h()
    &&& b.spec_edges() == a.spec_edges()
    &&& b.spec_total_water() == a.updated_total()
    &&& b.velocities_ok()
    &&& forall|x: int, y: int|
        a.in_bounds(x, y) ==> #[trigger] b.cell_at(x, y) == if crate::water::is_interior(a.w(), a.h(), x, y) {
            a.updated_cell(x, y, gravity, inertia)
        } else {
            crate::water::border_sea()
        }
}

pub open spec fn water_ticked(settings: UpdateSettings, a: SubmarineState, b: SubmarineState) -> bool {
    if settings.update_water {
        &&& same_except(a, b, true, false, false)
        &&& water_updated(a.water_grid, b.water_grid, settings.enable_gravity, settings.enable_inertia)
    } else {
        b == a
    }
}

/// Wire grid `b` is `a` after one signal step (see `WireGrid::update`).
pub open spec fn wire_stepped(a: WireGrid, b: WireGrid) -> bool {
    &&& b.wf()
    &&& b.signals_bounded()
    &&& b.w() == a.w()
    &&& b.h() == a.h()
    &&& forall|c: int| 0 <= c < 5 ==> #[trigger] b.wires(c) == a.wires(c)
    &&& b.inputs() == a.inputs()
    &&& b.outputs() == a.outputs()
    &&& b.cells().len() == a.cells().len()
    &&& forall|x: int, y: int, c: int|
        a.in_bounds(x, y) && 0 <= c < 5 ==> #[trigger] b.value_at(x, y, c) == if a.is_updated(x, y, c) {
            a.updated_wire(x, y, c)
        } else {
            a.value_at(x, y, c)
        }
}

/// A signal step of grid `a` changes some wire's signal strength.
pub open spec fn signals_move(a: WireGrid) -> bool {
    exists|x: int, y: int, c: int|
        a.in_bounds(x, y) && #[trigger] a.is_updated(x, y, c) && a.value_at(x, y, c).signal()
            != a.updated_wire(x, y, c).signal()
}

/// Wire grid `b` is `a` after its bundles handed their signals on (see
/// `WireGrid::update_bundles`).
pub open spec fn bundles_stepped(a: WireGrid, b: WireGrid) -> bool {
    &&& b.wf()
    &&& b.outputs() == a.inputs()
    &&& b.inputs().len() == a.inputs().len()
    &&& forall|i: int| 0 <= i < b.inputs().len() ==> (#[trigger] b.inputs()[i]).is_empty_buffer()
    &&& b.w() == a.w()
    &&& b.h() == a.h()
    &&& b.cells() == a.cells()
    &&& forall|c: int| #[trigger] b.wires(c) == a.wires(c)
}

pub open spec fn signal_event(id: usize, g: WireGrid) -> Seq<UpdateEvent> {
    if signals_move(g) {
        seq![UpdateEvent::Submarine { submarine_id: id, submarine_event: SubmarineUpdatedEvent::Signals }]
    } else {
        Seq::empty()
    }
}

/// The wire part of a tick: three signal steps, each reporting when it
/// changed a signal, then the bundles.
pub open spec fn wires_ticked(
    settings: UpdateSettings,
    id: usize,
    a: SubmarineState,
    b: SubmarineState,
    events: Seq<UpdateEvent>,
) -> bool {
    if settings.update_wires {
        exists|g1: WireGrid, g2: WireGrid, g3: WireGrid|
            #![trigger wire_stepped(a.wire_grid, g1), wire_stepped(g1, g2), wire_stepped(g2, g3)]
            wire_stepped(a.wire_grid, g1) && wire_stepped(g1, g2) && wire_stepped(g2, g3)
                && bundles_stepped(g3, b.wire_grid) && same_except(a, b, false, true, false) && events
                == signal_event(id, a.wire_grid) + signal_event(id, g1) + signal_event(id, g2)
    } else {
        b == a && events == Seq::<UpdateEvent>::empty()
    }
}

/// The object part of a tick (see `update_objects`), reporting when the
/// hull moved.
pub open spec fn objects_ticked(
    settings: UpdateSettings,
    id: usize,
    a: SubmarineState,
    b: SubmarineState,
    events: Seq<UpdateEvent>,
) -> bool {
    if settings.update_objects {
        let r = objects_step(
            a.objects@,
            a.water_grid.w(),
            a.wire_grid.w(),
            sub_view(a.water_grid, a.wire_grid, a.navigation, false),
            a.objects@.len(),
        );
        &&& grids_ok(b.water_grid, b.wire_grid)
        &&& grids_kept(b.water_grid, b.wire_grid, a.water_grid, a.wire_grid)
        &&& b.objects@ == r.0
        &&& (sub_view(b.water_grid, b.wire_grid, b.navigation, false).0 == r.1.0)
        &&& (sub_view(b.water_grid, b.wire_grid, b.navigation, false).1 == r.1.1)
        &&& (sub_view(b.water_grid, b.wire_grid, b.navigation, false).2 == r.1.2)
        &&& (sub_view(b.water_grid, b.wire_grid, b.navigation, false).3 == r.1.3)
        &&& b.navigation == r.1.4
        &&& b.background_pixels == a.background_pixels
        &&& b.sonar == a.sonar
        &&& b.collisions == a.collisions
        &&& b.docking_points == a.docking_points
        &&& events == if r.1.5 {
            seq![UpdateEvent::Submarine { submarine_id: id, submarine_event: SubmarineUpdatedEvent::Walls }]
        } else {
            Seq::empty()
        }
    } else {
        b == a && events == Seq::<UpdateEvent>::empty()
    }
}

/// The rock part of a tick: the game's collision list is replaced by this
/// submarine's hits on the rocks, which the submarine also remembers.
pub open spec fn rocks_ticked(
    settings: UpdateSettings,
    rocks: RockGrid,
    a: SubmarineState,
    b: SubmarineState,
    collisions: Seq<(usize, usize)>,
    collisions2: Seq<(usize, usize)>,
) -> bool {
    if settings.update_collision {
        let r = rock_collisions(rocks, a.navigation, a.water_grid.spec_edges(), a.water_grid.spec_edges().len());
        &&& collisions2 == r.0
        &&& b.collisions@ == a.collisions@ + r.1
        &&& b.background_pixels == a.background_pixels
        &&& b.water_grid == a.water_grid
        &&& b.wire_grid == a.wire_grid
        &&& b.objects == a.objects
        &&& b.sonar == a.sonar
        &&& b.navigation == a.navigation
        &&& b.docking_points == a.docking_points
    } else {
        b == a && collisions2 == collisions
    }
}

/// One tick of one submarine (`id`), step by step; the sonar is not
/// simulated here.
pub open spec fn submarine_ticked(
    settings: UpdateSettings,
    rocks: RockGrid,
    id: usize,
    a: SubmarineState,
    b: SubmarineState,
    events: Seq<UpdateEvent>,
    collisions: Seq<(usize, usize)>,
    collisions2: Seq<(usize, usize)>,
) -> bool {
    exists|n: SubmarineState, w: SubmarineState, r: SubmarineState, o: SubmarineState, we: Seq<UpdateEvent>, oe: Seq<
        UpdateEvent,
    >|
        #![trigger navigation_ticked(settings, a, n), water_ticked(settings, n, w), wires_ticked(settings, id, w, r, we), objects_ticked(settings, id, r, o, oe)]
        navigation_ticked(settings, a, n) && water_ticked(settings, n, w) && wires_ticked(settings, id, w, r, we)
            && objects_ticked(settings, id, r, o, oe) && rocks_ticked(settings, rocks, o, b, collisions, collisions2)
            && events == we + oe
}

/// Every step of a submarine's tick can run on what the steps before it
/// left (each step's own requirement; they guard against overflow).
pub open spec fn submarine_tick_safe(settings: UpdateSettings, rocks: RockGrid, id: usize, a: SubmarineState) -> bool {
    &&& settings.update_position ==> crate::navigation::navigation_computable(
        a.navigation,
        a.docking_points@,
        a.water_grid.spec_total_walls() as int,
        a.water_grid.spec_total_inside() as int,
        a.water_grid.spec_total_water() as int,
    )
    &&& forall|n: SubmarineState| #[trigger]
        navigation_ticked(settings, a, n) ==> {
            &&& settings.update_water ==> n.water_grid.update_fits()
            &&& forall|w: SubmarineState| #[trigger]
                water_ticked(settings, n, w) ==> {
                    &&& settings.update_wires ==> w.wire_grid.signals_bounded()
                    &&& forall|r: SubmarineState, we: Seq<UpdateEvent>| #[trigger]
                        wires_ticked(settings, id, w, r, we) ==> {
                            &&& settings.update_objects ==> {
                                &&& objects_ready(r.objects@, r.water_grid, r.wire_grid)
                                &&& r.water_grid.velocities_ok()
                                &&& objects_safe(
                                    r.objects@,
                                    r.water_grid.w(),
                                    r.wire_grid.w(),
                                    sub_view(r.water_grid, r.wire_grid, r.navigation, false),
                                )
                            }
                            &&& forall|o: SubmarineState, oe: Seq<UpdateEvent>| #[trigger]
                                objects_ticked(settings, id, r, o, oe) ==> (settings.update_collision ==> {
                                    &&& rocks.wf()
                                    &&& 1 <= rocks.w() <= i32::MAX
                                    &&& 1 <= rocks.h() <= i32::MAX
                                    &&& edges_fit(o.water_grid.spec_edges(), o.navigation)
                                })
                        }
                }
        }
}

/// Events appended in two rounds are the first round's and then the second's.
proof fn lemma_events_split(e0: Seq<UpdateEvent>, e1: Seq<UpdateEvent>, e2: Seq<UpdateEvent>)
    requires
        e0.len() <= e1.len() <= e2.len(),
        e1.take(e0.len() as int) == e0,
        e2.take(e1.len() as int) == e1,
    ensures
        e2.skip(e0.len() as int) == e1.skip(e0.len() as int) + e2.skip(e1.len() as int),
        e2.take(e0.len() as int) == e0,
{
    assert forall|i: int| 0 <= i < e0.len() implies e2[i] == e0[i] by {
        assert(e2.take(e1.len() as int)[i] == e2[i]);
        assert(e1.take(e0.len() as int)[i] == e1[i]);
    }
    assert(e2.take(e0.len() as int) =~= e0);
    assert forall|i: int| 0 <= i < e1.len() - e0.len() implies e2.skip(e0.len() as int)[i] == e1.skip(
        e0.len() as int,
    )[i] by {
        assert(e2.take(e1.len() as int)[e0.len() + i] == e2[e0.len() + i]);
    }
    assert(e2.skip(e0.len() as int) =~= e1.skip(e0.len() as int) + e2.skip(e1.len() as int));
}

#[verifier::spinoff_prover]
#[verifier::rlimit(40)]
fn tick_wires(sub: &mut SubmarineState, settings: UpdateSettings, id: usize, events: &mut Vec<UpdateEvent>)
    requires
        sub_wf(*old(sub)),
        settings.update_wires ==> old(sub).wire_grid.signals_bounded(),
    ensures
        sub_wf(*final(sub)),
        final(events)@.len() >= old(events)@.len(),
        final(events)@.take(old(events)@.len() as int) == old(events)@,
        wires_ticked(settings, id, *old(sub), *final(sub), final(events)@.skip(old(events)@.len() as int)),
{
    let ghost e0 = events@;
    if settings.update_wires {
        let ghost g0 = sub.wire_grid;
        let mut changed = false;
        sub.wire_grid.update(&mut changed);
        if changed {
            events.push(UpdateEvent::Submarine { submarine_id: id, submarine_event: SubmarineUpdatedEvent::Signals });
        }
        let ghost g1 = sub.wire_grid;
        assert(wire_stepped(g0, g1));
        assert(events@ =~= e0 + signal_event(id, g0));
        let mut changed = false;
        sub.wire_grid.update(&mut changed);
        if changed {
            events.push(UpdateEvent::Submarine { submarine_id: id, submarine_event: SubmarineUpdatedEvent::Signals });
        }
        let ghost g2 = sub.wire_grid;
        assert(wire_stepped(g1, g2));
        assert(events@ =~= e0 + signal_event(id, g0) + signal_event(id, g1));
        let mut changed = false;
        sub.wire_grid.update(&mut changed);
        if changed {
            events.push(UpdateEvent::Submarine { submarine_id: id, submarine_event: SubmarineUpdatedEvent::Signals });
        }
        let ghost g3 = sub.wire_grid;
        assert(wire_stepped(g2, g3));
        assert(events@ =~= e0 + (signal_event(id, g0) + signal_event(id, g1) + signal_event(id, g2)));
        sub.wire_grid.update_bundles();
        assert(bundles_stepped(g3, sub.wire_grid));
        assert(events@.skip(e0.len() as int) =~= signal_event(id, g0) + signal_event(id, g1) + signal_event(id, g2));
    } else {
        assert(events@.skip(e0.len() as int) =~= Seq::<UpdateEvent>::empty());
    }
    assert(events@.take(e0.len() as int) =~= e0);
}

fn tick_objects(sub: &mut SubmarineState, settings: UpdateSettings, id: usize, events: &mut Vec<UpdateEvent>)
    requires
        sub_wf(*old(sub)),
        settings.update_objects ==> {
            &&& objects_ready(old(sub).objects@, old(sub).water_grid, old(sub).wire_grid)
            &&& old(sub).water_grid.velocities_ok()
            &&& objects_safe(
                old(sub).objects@,
                old(sub).water_grid.w(),
                old(sub).wire_grid.w(),
                sub_view(old(sub).water_grid, old(sub).wire_grid, old(sub).navigation, false),
            )
        },
    ensures
        sub_wf(*final(sub)),
        final(events)@.len() >= old(events)@.len(),
        final(events)@.take(old(events)@.len() as int) == old(events)@,
        objects_ticked(settings, id, *old(sub), *final(sub), final(events)@.skip(old(events)@.len() as int)),
{
    let ghost e0 = events@;
    if settings.update_objects {
        let mut walls_updated = false;
        update_objects(&mut sub.objects, &mut sub.water_grid, &mut sub.wire_grid, &mut sub.navigation, &mut walls_updated);
        if walls_updated {
            events.push(UpdateEvent::Submarine { submarine_id: id, submarine_event: SubmarineUpdatedEvent::Walls });
            assert(events@.skip(e0.len() as int) =~= seq![
                UpdateEvent::Submarine { submarine_id: id, submarine_event: SubmarineUpdatedEvent::Walls },
            ]);
        } else {
            assert(events@.skip(e0.len() as int) =~= Seq::<UpdateEvent>::empty());
        }
    } else {
        assert(events@.skip(e0.len() as int) =~= Seq::<UpdateEvent>::empty());
    }
    assert(events@.take(e0.len() as int) =~= e0);
}

/// One tick of one submarine (see `submarine_ticked`): it steers, its water
/// flows, its signals spread, its objects act and it hits the rocks, each
/// step as its setting says. The events it reports are appended.
pub fn tick_submarine(
    sub: &mut SubmarineState,
    settings: UpdateSettings,
    rocks: &RockGrid,
    id: usize,
    collisions: &mut Vec<(usize, usize)>,
    events: &mut Vec<UpdateEvent>,
)
    requires
        sub_wf(*old(sub)),
        submarine_tick_safe(settings, *rocks, id, *old(sub)),
    ensures
        sub_wf(*final(sub)),
        final(events)@.len() >= old(events)@.len(),
        final(events)@.take(old(events)@.len() as int) == old(events)@,
        submarine_ticked(
            settings,
            *rocks,
            id,
            *old(sub),
            *final(sub),
            final(events)@.skip(old(events)@.len() as int),
            old(collisions)@,
            final(collisions)@,
        ),
{
    let ghost a = *sub;
    let ghost e0 = events@;
    if settings.update_position {
        update_navigation(sub);
    }
    let ghost n = *sub;
    assert(navigation_ticked(settings, a, n));
    if settings.update_water {
        sub.water_grid.update(settings.enable_gravity, settings.enable_inertia);
    }
    let ghost w = *sub;
    assert(water_ticked(settings, n, w));
    tick_wires(sub, settings, id, events);
    let ghost r = *sub;
    let ghost e1 = events@;
    let ghost we = e1.skip(e0.len() as int);
    tick_objects(sub, settings, id, events);
    let ghost o = *sub;
    let ghost e2 = events@;
    let ghost oe = e2.skip(e1.len() as int);
    if settings.update_collision {
        collisions.clear();
        update_rock_collisions(&sub.water_grid, rocks, &sub.navigation, collisions, &mut sub.collisions);
    }
    proof {
        lemma_events_split(e0, e1, e2);
        assert(navigation_ticked(settings, a, n) && water_ticked(settings, n, w) && wires_ticked(settings, id, w, r, we)
            && objects_ticked(settings, id, r, o, oe));
    }
}

/// The two submarines agree but for what they collided with.
pub open spec fn same_but_collisions(a: SubmarineState, b: SubmarineState) -> bool {
    &&& b.background_pixels == a.background_pixels
    &&& b.water_grid == a.water_grid
    &&& b.wire_grid == a.wire_grid
    &&& b.objects == a.objects
    &&& b.sonar == a.sonar
    &&& b.navigation == a.navigation
    &&& b.docking_points == a.docking_points
}

/// The first stage of a tick: every collision list is emptied.
pub open spec fn collisions_cleared(s: GameState, s2: GameState) -> bool {
    &&& s2.update_settings == s.update_settings
    &&& s2.rock_grid == s.rock_grid
    &&& s2.collisions@.len() == 0
    &&& s2.submarines@.len() == s.submarines@.len()
    &&& forall|i: int|
        0 <= i < s.submarines@.len() ==> same_but_collisions(s.submarines@[i], #[trigger] s2.submarines@[i])
            && s2.submarines@[i].collisions@.len() == 0
}

/// The second stage: docking connectors find each other (see
/// `update_docking_points`).
pub open spec fn docked(s: GameState, s2: GameState) -> bool {
    let d = dock_i(initial_docks(s.submarines@), s.submarines@.len());
    &&& s2.update_settings == s.update_settings
    &&& s2.rock_grid == s.rock_grid
    &&& s2.collisions == s.collisions
    &&& s2.submarines@.len() == s.submarines@.len()
    &&& forall|i: int|
        0 <= i < s2.submarines@.len() ==> {
            &&& (#[trigger] s2.submarines@[i]).docking_points@ == d.0[i]
            &&& s2.submarines@[i].objects@ == d.1[i]
            &&& same_but_docking(s2.submarines@[i], s.submarines@[i])
        }
}

/// Submarine `i` goes from `a[i]` to `b[i]`, taking the collisions from
/// `collisions[i]` to `collisions[i + 1]` and the events from `events[i]`
/// to `events[i + 1]`.
pub open spec fn trace_step(
    settings: UpdateSettings,
    rocks: RockGrid,
    a: Seq<SubmarineState>,
    b: Seq<SubmarineState>,
    collisions: Seq<Seq<(usize, usize)>>,
    events: Seq<Seq<UpdateEvent>>,
    i: int,
) -> bool {
    &&& events[i + 1].len() >= events[i].len()
    &&& events[i + 1].take(events[i].len() as int) == events[i]
    &&& submarine_ticked(
        settings,
        rocks,
        i as usize,
        a[i],
        b[i],
        events[i + 1].skip(events[i].len() as int),
        collisions[i],
        collisions[i + 1],
    )
}

/// The submarines tick one after the other, each passing the collisions
/// and events on to the next.
pub open spec fn submarines_trace(
    settings: UpdateSettings,
    rocks: RockGrid,
    a: Seq<SubmarineState>,
    b: Seq<SubmarineState>,
    collisions: Seq<Seq<(usize, usize)>>,
    events: Seq<Seq<UpdateEvent>>,
) -> bool {
    &&& b.len() == a.len()
    &&& collisions.len() == a.len() + 1
    &&& events.len() == a.len() + 1
    &&& forall|i: int| 0 <= i < a.len() ==> #[trigger] trace_step(settings, rocks, a, b, collisions, events, i)
}

/// The third stage: each submarine ticks in turn (see `submarine_ticked`).
pub open spec fn submarines_ticked(s: GameState, e: Seq<UpdateEvent>, s2: GameState, e2: Seq<UpdateEvent>) -> bool {
    &&& s2.update_settings == s.update_settings
    &&& s2.rock_grid == s.rock_grid
    &&& exists|collisions: Seq<Seq<(usize, usize)>>, events: Seq<Seq<UpdateEvent>>|
        #[trigger] submarines_trace(
            s.update_settings,
            s.rock_grid,
            s.submarines@,
            s2.submarines@,
            collisions,
            events,
        ) && collisions[0] == s.collisions@ && collisions.last() == s2.collisions@ && events[0] == e
            && events.last() == e2
}

/// The fourth stage: docked submarines move together (see
/// `update_position`), when positions are updated.
pub open spec fn positioned(s: GameState, s2: GameState) -> bool {
    if s.update_settings.update_position {
        &&& s2.update_settings == s.update_settings
        &&& s2.rock_grid == s.rock_grid
        &&& s2.collisions == s.collisions
        &&& s2.submarines@.len() == s.submarines@.len()
        &&& forall|i: int|
            0 <= i < s2.submarines@.len() ==> {
                &&& (#[trigger] s2.submarines@[i]).navigation == Navigation {
                    position: moved_position(s.submarines@, i),
                    ..s.submarines@[i].navigation
                }
                &&& s2.submarines@[i].objects == s.submarines@[i].objects
                &&& s2.submarines@[i].docking_points == s.submarines@[i].docking_points
                &&& same_but_docking(
                    s2.submarines@[i],
                    SubmarineState { navigation: s2.submarines@[i].navigation, ..s.submarines@[i] },
                )
            }
    } else {
        s2 == s
    }
}

/// What submarine `k` runs into among the first `upto` submarines, in
/// their order (see `update_submarine_collisions`).
pub open spec fn hull_hits(subs: Seq<SubmarineState>, k: int, upto: nat) -> Seq<(usize, usize)>
    decreases upto,
{
    if upto == 0 {
        Seq::empty()
    } else {
        let m = upto - 1;
        hull_hits(subs, k, m as nat) + if m != k {
            hull_collisions(
                subs[m].water_grid,
                subs[k].navigation,
                subs[m].navigation,
                subs[k].water_grid.spec_edges(),
                subs[k].water_grid.spec_edges().len(),
            )
        } else {
            Seq::empty()
        }
    }
}

/// The last stage: every submarine remembers the hulls it runs into, when
/// collisions are updated.
pub open spec fn hulls_hit(s: GameState, s2: GameState) -> bool {
    if s.update_settings.update_collision {
        &&& s2.update_settings == s.update_settings
        &&& s2.rock_grid == s.rock_grid
        &&& s2.collisions == s.collisions
        &&& s2.submarines@.len() == s.submarines@.len()
        &&& forall|k: int|
            0 <= k < s.submarines@.len() ==> {
                &&& same_but_collisions(s.submarines@[k], #[trigger] s2.submarines@[k])
                &&& s2.submarines@[k].collisions@ == s.submarines@[k].collisions@ + hull_hits(
                    s.submarines@,
                    k,
                    s.submarines@.len(),
                )
            }
    } else {
        s2 == s
    }
}

/// Every pair of submarines can be checked for overlap within the integer
/// types.
pub open spec fn hulls_safe(subs: Seq<SubmarineState>) -> bool {
    forall|k: int, m: int|
        0 <= k < subs.len() && 0 <= m < subs.len() && k != m ==> offset_fits(
            (#[trigger] subs[k]).navigation,
            (#[trigger] subs[m]).navigation,
        ) && hull_edges_fit(subs[k].water_grid.spec_edges(), subs[k].navigation, subs[m].navigation)
}

/// One tick of the whole game, stage by stage.
pub open spec fn ticked(s: GameState, e: Seq<UpdateEvent>, s2: GameState, e2: Seq<UpdateEvent>) -> bool {
    exists|s1: GameState, sd: GameState, st: GameState, sp: GameState|
        #![trigger collisions_cleared(s, s1), docked(s1, sd), submarines_ticked(sd, e, st, e2), positioned(st, sp)]
        collisions_cleared(s, s1) && docked(s1, sd) && submarines_ticked(sd, e, st, e2) && positioned(st, sp)
            && hulls_hit(sp, s2)
}

/// Every stage of a tick can run on what the stages before it left (each
/// stage's own requirement; they guard against overflow).
pub open spec fn tick_safe(s: GameState) -> bool {
    forall|s1: GameState| #[trigger]
        collisions_cleared(s, s1) ==> {
            &&& forall|i: int|
                0 <= i < s1.submarines@.len() ==> crate::docking::docking_positions_ok(
                    (#[trigger] s1.submarines@[i]).objects@,
                    s1.submarines@[i].navigation,
                )
            &&& crate::docking::pairs_fit(initial_docks(s1.submarines@).0)
            &&& forall|sd: GameState| #[trigger]
                docked(s1, sd) ==> {
                    &&& forall|i: int|
                        0 <= i < sd.submarines@.len() ==> submarine_tick_safe(
                            sd.update_settings,
                            sd.rock_grid,
                            i as usize,
                            #[trigger] sd.submarines@[i],
                        )
                    &&& forall|e: Seq<UpdateEvent>, st: GameState, e2: Seq<UpdateEvent>| #[trigger]
                        submarines_ticked(sd, e, st, e2) ==> {
                            &&& st.update_settings.update_position ==> positions_ok(st.submarines@)
                            &&& forall|sp: GameState| #[trigger]
                                positioned(st, sp) ==> (sp.update_settings.update_collision ==> hulls_safe(
                                    sp.submarines@,
                                ))
                        }
                }
        }
}

fn clear_collisions(game_state: &mut GameState)
    requires
        old(game_state).wf(),
    ensures
        final(game_state).wf(),
        collisions_cleared(*old(game_state), *final(game_state)),
{
    let ghost s0 = *game_state;
    game_state.collisions.clear();
    let n = game_state.submarines.len();
    let mut i: usize = 0;
    while i < n
        invariant
            n == s0.submarines@.len(),
            n == game_state.submarines@.len(),
            i <= n,
            game_state.update_settings == s0.update_settings,
            game_state.rock_grid == s0.rock_grid,
            game_state.collisions@.len() == 0,
            s0.wf(),
            forall|k: int| 0 <= k < n ==> same_but_collisions(s0.submarines@[k], #[trigger] game_state.submarines@[k]),
            forall|k: int| 0 <= k < i ==> (#[trigger] game_state.submarines@[k]).collisions@.len() == 0,
        decreases n - i,
    {
        game_state.submarines[i].collisions.clear();
        i = i + 1;
    }
    proof {
        assert forall|k: int| 0 <= k < n implies sub_wf(#[trigger] game_state.submarines@[k]) by {
            assert(sub_wf(s0.submarines@[k]));
            assert(same_but_collisions(s0.submarines@[k], game_state.submarines@[k]));
        }
    }
}

fn tick_submarines(game_state: &mut GameState, events: &mut Vec<UpdateEvent>)
    requires
        old(game_state).wf(),
        forall|i: int|
            0 <= i < old(game_state).submarines@.len() ==> submarine_tick_safe(
                old(game_state).update_settings,
                old(game_state).rock_grid,
                i as usize,
                #[trigger] old(game_state).submarines@[i],
            ),
    ensures
        final(game_state).wf(),
        submarines_ticked(*old(game_state), old(events)@, *final(game_state), final(events)@),
{
    let ghost s0 = *game_state;
    let ghost mut colls: Seq<Seq<(usize, usize)>> = seq![game_state.collisions@];
    let ghost mut evs: Seq<Seq<UpdateEvent>> = seq![events@];
    let settings = game_state.update_settings;
    let n = game_state.submarines.len();
    let mut i: usize = 0;
    while i < n
        invariant
            n == s0.submarines@.len(),
            n == game_state.submarines@.len(),
            i <= n,
            settings == s0.update_settings,
            game_state.update_settings == s0.update_settings,
            game_state.rock_grid == s0.rock_grid,
            s0.wf(),
            forall|k: int|
                0 <= k < n ==> submarine_tick_safe(settings, s0.rock_grid, k as usize, #[trigger] s0.submarines@[k]),
            forall|k: int| i <= k < n ==> #[trigger] game_state.submarines@[k] == s0.submarines@[k],
            forall|k: int| 0 <= k < i ==> sub_wf(#[trigger] game_state.submarines@[k]),
            colls.len() == i + 1,
            evs.len() == i + 1,
            colls[0] == s0.collisions@,
            evs[0] == old(events)@,
            colls.last() == game_state.collisions@,
            evs.last() == events@,
            forall|k: int|
                0 <= k < i ==> #[trigger] trace_step(
                    settings,
                    s0.rock_grid,
                    s0.submarines@,
                    game_state.submarines@,
                    colls,
                    evs,
                    k,
                ),
        decreases n - i,
    {
        proof {
            assert(sub_wf(s0.submarines@[i as int]));
        }
        let ghost subs_before = game_state.submarines@;
        let ghost events_before = events@;
        let ghost colls_before = game_state.collisions@;
        tick_submarine(&mut game_state.submarines[i], settings, &game_state.rock_grid, i, &mut game_state.collisions, events);
        proof {
            let oc = colls;
            let oe = evs;
            colls = colls.push(game_state.collisions@);
            evs = evs.push(events@);
            assert forall|k: int| 0 <= k < i + 1 implies #[trigger] trace_step(
                settings,
                s0.rock_grid,
                s0.submarines@,
                game_state.submarines@,
                colls,
                evs,
                k,
            ) by {
                if k < i {
                    assert(trace_step(settings, s0.rock_grid, s0.submarines@, subs_before, oc, oe, k));
                    assert(colls[k] == oc[k] && colls[k + 1] == oc[k + 1]);
                    assert(evs[k] == oe[k] && evs[k + 1] == oe[k + 1]);
                    assert(game_state.submarines@[k] == subs_before[k]);
                } else {
                    assert(evs[k] == events_before && evs[k + 1] == events@);
                    assert(colls[k] == colls_before && colls[k + 1] == game_state.collisions@);
                    assert(s0.submarines@[k] == subs_before[k]);
                    assert(k as usize == i);
                    assert(events@.len() >= events_before.len());
                    assert(events@.take(events_before.len() as int) == events_before);
                    assert(submarine_ticked(
                        settings,
                        s0.rock_grid,
                        i,
                        subs_before[k],
                        game_state.submarines@[k],
                        events@.skip(events_before.len() as int),
                        colls_before,
                        game_state.collisions@,
                    ));
                }
            }
        }
        i = i + 1;
    }
    proof {
        assert(submarines_trace(settings, s0.rock_grid, s0.submarines@, game_state.submarines@, colls, evs));
        assert forall|k: int| 0 <= k < n implies sub_wf(#[trigger] game_state.submarines@[k]) by {}
    }
}

/// Adds to submarine `k`'s collisions the cells where it overlaps
/// submarine `m`.
fn collide_pair(subs: &mut Vec<SubmarineState>, k: usize, m: usize)
    requires
        k < old(subs)@.len(),
        m < old(subs)@.len(),
        sub_wf(old(subs)@[m as int]),
        offset_fits(old(subs)@[k as int].navigation, old(subs)@[m as int].navigation),
        hull_edges_fit(
            old(subs)@[k as int].water_grid.spec_edges(),
            old(subs)@[k as int].navigation,
            old(subs)@[m as int].navigation,
        ),
    ensures
        final(subs)@.len() == old(subs)@.len(),
        forall|j: int| 0 <= j < old(subs)@.len() && j != k ==> #[trigger] final(subs)@[j] == old(subs)@[j],
        same_but_collisions(old(subs)@[k as int], final(subs)@[k as int]),
        final(subs)@[k as int].collisions@ == old(subs)@[k as int].collisions@ + hull_collisions(
            old(subs)@[m as int].water_grid,
            old(subs)@[k as int].navigation,
            old(subs)@[m as int].navigation,
            old(subs)@[k as int].water_grid.spec_edges(),
            old(subs)@[k as int].water_grid.spec_edges().len(),
        ),
{
    let mut hits: Vec<(usize, usize)> = Vec::new();
    std::mem::swap(&mut subs[k].collisions, &mut hits);
    update_submarine_collisions(&subs[k].water_grid, &subs[m].water_grid, &subs[k].navigation, &subs[m].navigation, &mut hits);
    std::mem::swap(&mut subs[k].collisions, &mut hits);
}

fn collide_submarines(subs: &mut Vec<SubmarineState>)
    requires
        forall|i: int| 0 <= i < old(subs)@.len() ==> sub_wf(#[trigger] old(subs)@[i]),
        hulls_safe(old(subs)@),
    ensures
        final(subs)@.len() == old(subs)@.len(),
        forall|k: int|
            0 <= k < old(subs)@.len() ==> {
                &&& same_but_collisions(old(subs)@[k], #[trigger] final(subs)@[k])
                &&& final(subs)@[k].collisions@ == old(subs)@[k].collisions@ + hull_hits(
                    old(subs)@,
                    k,
                    old(subs)@.len(),
                )
            },
{
    let ghost s0 = subs@;
    let n = subs.len();
    let mut i: usize = 0;
    while i < n
        invariant
            n == s0.len(),
            n == subs@.len(),
            i <= n,
            forall|k: int| 0 <= k < n ==> sub_wf(#[trigger] s0[k]),
            hulls_safe(s0),
            forall|k: int| 0 <= k < n ==> same_but_collisions(s0[k], #[trigger] subs@[k]),
            forall|k: int|
                0 <= k < n ==> (#[trigger] subs@[k]).collisions@ == s0[k].collisions@ + hull_hits(
                    s0,
                    k,
                    if k < i {
                        n as nat
                    } else {
                        i as nat
                    },
                ),
        decreases n - i,
    {
        let mut j: usize = i + 1;
        proof {
            assert forall|k: int| 0 <= k < n implies (#[trigger] subs@[k]).collisions@ == s0[k].collisions@ + hull_hits(
                s0,
                k,
                if k < i {
                    n as nat
                } else if k == i {
                    (i + 1) as nat
                } else {
                    i as nat
                },
            ) by {
                if k == i {
                    assert(hull_hits(s0, k, (i + 1) as nat) =~= hull_hits(s0, k, i as nat));
                }
            }
        }
        while j < n
            invariant
                n == s0.len(),
                n == subs@.len(),
                i < n,
                i + 1 <= j <= n,
                forall|k: int| 0 <= k < n ==> sub_wf(#[trigger] s0[k]),
                hulls_safe(s0),
                forall|k: int| 0 <= k < n ==> same_but_collisions(s0[k], #[trigger] subs@[k]),
                forall|k: int|
                    0 <= k < n ==> (#[trigger] subs@[k]).collisions@ == s0[k].collisions@ + hull_hits(
                        s0,
                        k,
                        if k < i {
                            n as nat
                        } else if k == i {
                            j as nat
                        } else if k < j {
                            (i + 1) as nat
                        } else {
                            i as nat
                        },
                    ),
            decreases n - j,
        {
            let ghost before = subs@;
            proof {
                assert(same_but_collisions(s0[i as int], subs@[i as int]));
                assert(same_but_collisions(s0[j as int], subs@[j as int]));
                assert(sub_wf(s0[j as int]));
                assert(sub_wf(s0[i as int]));
            }
            collide_pair(subs, i, j);
            collide_pair(subs, j, i);
            proof {
                assert forall|k: int| 0 <= k < n implies (#[trigger] subs@[k]).collisions@ == s0[k].collisions@
                    + hull_hits(
                    s0,
                    k,
                    if k < i {
                        n as nat
                    } else if k == i {
                        (j + 1) as nat
                    } else if k < j + 1 {
                        (i + 1) as nat
                    } else {
                        i as nat
                    },
                ) by {
                    if k == i {
                        assert(hull_hits(s0, k, (j + 1) as nat) == hull_hits(s0, k, j as nat) + hull_collisions(
                            s0[j as int].water_grid,
                            s0[k].navigation,
                            s0[j as int].navigation,
                            s0[k].water_grid.spec_edges(),
                            s0[k].water_grid.spec_edges().len(),
                        ));
                        assert(subs@[k].collisions@ =~= s0[k].collisions@ + hull_hits(s0, k, (j + 1) as nat));
                    } else if k == j {
                        assert(hull_hits(s0, k, (i + 1) as nat) == hull_hits(s0, k, i as nat) + hull_collisions(
                            s0[i as int].water_grid,
                            s0[k].navigation,
                            s0[i as int].navigation,
                            s0[k].water_grid.spec_edges(),
                            s0[k].water_grid.spec_edges().len(),
                        ));
                        assert(subs@[k].collisions@ =~= s0[k].collisions@ + hull_hits(s0, k, (i + 1) as nat));
                    }
                }
                assert forall|k: int| 0 <= k < n implies same_but_collisions(s0[k], #[trigger] subs@[k]) by {
                    assert(same_but_collisions(s0[k], before[k]));
                }
            }
            j = j + 1;
        }
        proof {
            assert forall|k: int| 0 <= k < n implies (#[trigger] subs@[k]).collisions@ == s0[k].collisions@ + hull_hits(
                s0,
                k,
                if k < i + 1 {
                    n as nat
                } else {
                    (i + 1) as nat
                },
            ) by {
                if k > i {
                    assert(hull_hits(s0, k, (i + 1) as nat) == hull_hits(s0, k, i as nat) + hull_collisions(
                        s0[i as int].water_grid,
                        s0[k].navigation,
                        s0[i as int].navigation,
                        s0[k].water_grid.spec_edges(),
                        s0[k].water_grid.spec_edges().len(),
                    ));
                }
            }
        }
        i = i + 1;
    }
}

/// One tick of the simulation on the game state as it is (see `ticked`).
pub fn tick(game_state: &mut GameState, events: &mut Vec<UpdateEvent>)
    requires
        old(game_state).wf(),
        tick_safe(*old(game_state)),
    ensures
        final(game_state).wf(),
        ticked(*old(game_state), old(events)@, *final(game_state), final(events)@),
{
    let ghost s0 = *game_state;
    let ghost e0 = events@;
    clear_collisions(game_state);
    let ghost s1 = *game_state;
    assert(collisions_cleared(s0, s1));
    update_docking_points(&mut game_state.submarines);
    let ghost sd = *game_state;
    assert(docked(s1, sd));
    proof {
        assert forall|i: int| 0 <= i < sd.submarines@.len() implies sub_wf(#[trigger] sd.submarines@[i]) by {
            assert(sub_wf(s1.submarines@[i]));
        }
    }
    tick_submarines(game_state, events);
    let ghost st = *game_state;
    let ghost et = events@;
    assert(submarines_ticked(sd, e0, st, et));
    if game_state.update_settings.update_position {
        update_position(&mut game_state.submarines);
        proof {
            assert forall|i: int| 0 <= i < game_state.submarines@.len() implies sub_wf(
                #[trigger] game_state.submarines@[i],
            ) by {
                assert(sub_wf(st.submarines@[i]));
            }
        }
    }
    let ghost sp = *game_state;
    assert(positioned(st, sp));
    if game_state.update_settings.update_collision {
        collide_submarines(&mut game_state.submarines);
        proof {
            assert forall|i: int| 0 <= i < game_state.submarines@.len() implies sub_wf(
                #[trigger] game_state.submarines@[i],
            ) by {
                assert(sub_wf(sp.submarines@[i]));
            }
        }
    }
    assert(hulls_hit(sp, *game_state));
}

/// Applies the commands (see `update_state_from_commands`), then runs one
/// tick of the simulation (see `tick`).
pub fn update_game(commands: Vec<Command>, game_state: &mut GameState, events: &mut Vec<UpdateEvent>)
    requires
        old(game_state).wf(),
        commands_ok(commands@),
        forall|s: GameState, e: Seq<UpdateEvent>|
            #[trigger] commands_applied(*old(game_state), old(events)@, commands@, s, e) ==> tick_safe(s),
    ensures
        final(game_state).wf(),
        exists|s: GameState, e: Seq<UpdateEvent>|
            #[trigger] commands_applied(*old(game_state), old(events)@, commands@, s, e) && ticked(
                s,
                e,
                *final(game_state),
                final(events)@,
            ),
{
    let ghost s0 = *game_state;
    let ghost e0 = events@;
    let ghost cmds = commands@;
    update_state_from_commands(commands, game_state, events);
    let ghost sc = *game_state;
    let ghost ec = events@;
    assert(commands_applied(s0, e0, cmds, sc, ec));
    tick(game_state, events);
}

} // verus!
