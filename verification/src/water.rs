//! Water on a 2D grid of cells, with pressure and inertia for each cell.
//!
//! Every update moves water between neighbouring cells: each inside cell
//! plans how much of its water leaves in each direction (overpressure above
//! a full cell, plus momentum), walls reflect what flows into them, and the
//! sea pushes a constant amount into every neighbour.

use vstd::prelude::*;

use crate::grid::{
    cell_index, lemma_cell_coordinates, lemma_cell_index_bounds, lemma_cell_index_injective, lemma_index_coordinates,
    neighbour_pos,
};
use crate::saveload::CellTemplate;

verus! {

/// Water level of the sea (currently static).
pub const SEA_LEVEL: u32 = 8192;

/// Water level of a full cell; water above it leaves by overpressure.
pub const FULL_LEVEL: u32 = 1024;

/// Amount of water that filling a cell adds.
pub const FILL_AMOUNT: u32 = 16384;

/// Highest level that pumping water into a cell reaches.
pub const PUMP_LIMIT: u32 = 8096;

/// Largest velocity component for which planning stays within `i32`: the
/// momentum split multiplies it by at most a full level (1024).
pub const MAX_VELOCITY: i32 = 2097151;

/// Largest planned transfer for which an update keeps every velocity within
/// `MAX_VELOCITY` (a quarter of the push of the incoming water and gravity
/// joins three quarters of the old velocity).
pub const MAX_TRANSFER: u32 = 2097119;

#[derive(Clone, Copy, Debug)]
pub enum CellType {
    Inside { level: u32, velocity: (i32, i32), planned_remaining: u32 },
    Wall { wall_reflect: [u32; 4] },
    Sea,
}

#[derive(Clone, Copy, Debug)]
pub struct WaterCell {
    cell_type: CellType,
    planned_transfer: [u32; 4],
}

pub open spec fn abs(v: int) -> int {
    if v < 0 {
        -v
    } else {
        v
    }
}

pub open spec fn sign(v: int) -> int {
    if v > 0 {
        1
    } else if v < 0 {
        -1
    } else {
        0
    }
}

pub open spec fn min(a: int, b: int) -> int {
    if a <= b {
        a
    } else {
        b
    }
}

/// A cell that starts as `start` set up as template `t` says.
pub open spec fn templated_cell(start: WaterCell, t: CellTemplate) -> WaterCell {
    match t {
        CellTemplate::Sea => start.with_kind(CellType::Sea),
        CellTemplate::Wall | CellTemplate::Glass => start.with_kind(CellType::Wall { wall_reflect: [0, 0, 0, 0] }),
        CellTemplate::Inside => WaterCell::spec_empty_inside(),
        CellTemplate::Water => WaterCell::spec_empty_inside().with_level(FILL_AMOUNT).replanned(),
    }
}

/// Cell `k` of a new grid: part of the default hull, or empty inside.
pub open spec fn initial_cell(width: int, height: int, k: int) -> WaterCell {
    if initial_wall(width, height, k) {
        bare_wall()
    } else {
        WaterCell::spec_empty_inside()
    }
}

/// Sets a cell up as its template says.
fn apply_template(cell: &mut WaterCell, template: CellTemplate)
    ensures
        *final(cell) == templated_cell(*old(cell), template),
{
    match template {
        CellTemplate::Sea => cell.make_sea(),
        CellTemplate::Wall | CellTemplate::Glass => cell.make_wall(),
        CellTemplate::Inside => cell.make_inside(),
        CellTemplate::Water => {
            cell.make_inside();
            cell.fill();
        },
    }
}

/// How many of the cells are walls.
pub open spec fn walls_in(cells: Seq<WaterCell>) -> nat
    decreases cells.len(),
{
    if cells.len() == 0 {
        0
    } else {
        walls_in(cells.drop_last()) + if cells.last().spec_is_wall() {
            1nat
        } else {
            0nat
        }
    }
}

/// How many of the cells are inside the hull.
pub open spec fn inside_in(cells: Seq<WaterCell>) -> nat
    decreases cells.len(),
{
    if cells.len() == 0 {
        0
    } else {
        inside_in(cells.drop_last()) + if cells.last().spec_is_inside() {
            1nat
        } else {
            0nat
        }
    }
}

/// Integer division rounding towards zero, as Rust divides `i32`s.
pub open spec fn tdiv(a: int, b: int) -> int {
    if a >= 0 {
        a / b
    } else {
        -((-a) / b)
    }
}

/// The water that leaves a cell by overpressure.
pub open spec fn pressure_surplus(level: int) -> int {
    if level > FULL_LEVEL {
        level - FULL_LEVEL
    } else {
        0
    }
}

/// The water that leaves a cell by momentum.
pub open spec fn inertia_of(level: int, velocity: (i32, i32)) -> int {
    min(abs(velocity.0 as int) + abs(velocity.1 as int), level - pressure_surplus(level))
}

/// The momentum flow split over the axes: proportional to the velocity,
/// rounded towards zero, with what rounding loses added to the vertical
/// flow (in the direction it already goes).
pub open spec fn momentum_flow(level: int, velocity: (i32, i32)) -> (int, int) {
    let total = abs(velocity.0 as int) + abs(velocity.1 as int);
    let inertia = inertia_of(level, velocity);
    let vx = tdiv(velocity.0 * inertia, total);
    let vy = tdiv(velocity.1 * inertia, total);
    let leftover = inertia - abs(vx) - abs(vy);
    (
        vx,
        if vy > 0 {
            vy + leftover
        } else if vy < 0 {
            vy - leftover
        } else {
            vy
        },
    )
}

pub open spec fn positive_part(v: int) -> int {
    if v > 0 {
        v
    } else {
        0
    }
}

/// The water an inside cell plans to send in direction `d` (down, right,
/// up, left): an equal share of the overpressure (the first direction also
/// gets the remainder) plus the momentum flow that points that way.
pub open spec fn inside_transfer(level: int, velocity: (i32, i32), d: int) -> int {
    let surplus = pressure_surplus(level);
    let base = surplus / 4 + if d == 0 {
        surplus % 4
    } else {
        0
    };
    if abs(velocity.0 as int) + abs(velocity.1 as int) == 0 {
        base
    } else {
        let flow = momentum_flow(level, velocity);
        base + if d == 0 {
            positive_part(flow.1)
        } else if d == 1 {
            positive_part(flow.0)
        } else if d == 2 {
            positive_part(-flow.1)
        } else {
            positive_part(-flow.0)
        }
    }
}

/// The water an inside cell plans to keep.
pub open spec fn inside_remaining(level: int, velocity: (i32, i32)) -> int {
    level - pressure_surplus(level) - inertia_of(level, velocity)
}

pub open spec fn velocity_bounded(velocity: (i32, i32)) -> bool {
    &&& -MAX_VELOCITY <= velocity.0 <= MAX_VELOCITY
    &&& -MAX_VELOCITY <= velocity.1 <= MAX_VELOCITY
}

impl WaterCell {
    pub closed spec fn kind(&self) -> CellType {
        self.cell_type
    }

    /// The water the cell plans to send to each neighbour (down, right, up,
    /// left) on the next update.
    pub closed spec fn transfers(&self) -> Seq<u32> {
        self.planned_transfer@
    }

    pub closed spec fn make(kind: CellType, transfers: Seq<u32>) -> WaterCell {
        WaterCell {
            cell_type: kind,
            planned_transfer: [transfers[0], transfers[1], transfers[2], transfers[3]],
        }
    }

    pub broadcast proof fn lemma_make(kind: CellType, transfers: Seq<u32>)
        requires
            transfers.len() == 4,
        ensures
            #[trigger] WaterCell::make(kind, transfers).kind() == kind,
            WaterCell::make(kind, transfers).transfers() == transfers,
    {
        assert(WaterCell::make(kind, transfers).transfers() =~= transfers);
    }

    pub broadcast proof fn lemma_transfers_len(c: WaterCell)
        ensures
            #[trigger] c.transfers().len() == 4,
    {
    }

    /// Cells with the same kind and plans are the same cell.
    pub proof fn lemma_ext(a: WaterCell, b: WaterCell)
        requires
            a.kind() == b.kind(),
            a.transfers() == b.transfers(),
        ensures
            a == b,
    {
        assert(a.planned_transfer =~= b.planned_transfer);
    }

    pub open spec fn spec_is_wall(&self) -> bool {
        self.kind() is Wall
    }

    pub open spec fn spec_is_inside(&self) -> bool {
        self.kind() is Inside
    }

    pub open spec fn spec_is_sea(&self) -> bool {
        self.kind() is Sea
    }

    /// The cell's water level; walls hold none and the sea is always at sea
    /// level.
    pub open spec fn spec_level(&self) -> int {
        match self.kind() {
            CellType::Inside { level, .. } => level as int,
            CellType::Wall { .. } => 0,
            CellType::Sea => SEA_LEVEL as int,
        }
    }

    pub open spec fn spec_velocity(&self) -> (i32, i32) {
        match self.kind() {
            CellType::Inside { velocity, .. } => velocity,
            _ => (0, 0),
        }
    }

    /// The velocity of an inside cell is small enough to plan with.
    pub open spec fn velocity_ok(&self) -> bool {
        velocity_bounded(self.spec_velocity())
    }

    /// The cell after it has recomputed its plans from its level and
    /// velocity.
    pub open spec fn replanned(&self) -> WaterCell {
        match self.kind() {
            CellType::Wall { wall_reflect } => WaterCell::make(self.kind(), wall_reflect@),
            CellType::Sea => WaterCell::make(
                CellType::Sea,
                seq![SEA_LEVEL / 4, SEA_LEVEL / 4, SEA_LEVEL / 4, SEA_LEVEL / 4],
            ),
            CellType::Inside { level, velocity, .. } => WaterCell::make(
                CellType::Inside {
                    level,
                    velocity,
                    planned_remaining: inside_remaining(level as int, velocity) as u32,
                },
                Seq::new(4, |d: int| inside_transfer(level as int, velocity, d) as u32),
            ),
        }
    }

    /// An empty inside cell with no plans.
    pub open spec fn spec_empty_inside() -> WaterCell {
        WaterCell::make(
            CellType::Inside { level: 0, velocity: (0, 0), planned_remaining: 0 },
            seq![0u32, 0u32, 0u32, 0u32],
        )
    }

    pub fn default_cell() -> (c: WaterCell)
        ensures
            c == WaterCell::spec_empty_inside(),
    {
        let c = WaterCell {
            cell_type: CellType::Inside { level: 0, velocity: (0, 0), planned_remaining: 0 },
            planned_transfer: [0, 0, 0, 0],
        };
        proof {
            WaterCell::lemma_make(c.cell_type, seq![0u32, 0u32, 0u32, 0u32]);
            WaterCell::lemma_ext(c, WaterCell::spec_empty_inside());
        }
        c
    }

    pub fn level(&self) -> (r: u32)
        ensures
            r == self.spec_level(),
    {
        match self.cell_type {
            CellType::Inside { level, .. } => level,
            CellType::Wall { .. } => 0,
            CellType::Sea => SEA_LEVEL,
        }
    }

    /// The velocity of the water in the cell (zero for walls and the sea).
    pub fn velocity(&self) -> (r: (i32, i32))
        ensures
            r == self.spec_velocity(),
    {
        match self.cell_type {
            CellType::Inside { velocity, .. } => velocity,
            CellType::Wall { .. } => (0, 0),
            CellType::Sea => (0, 0),
        }
    }

    /// Recomputes the transfer/reflect plans to match the level.
    pub fn replan(&mut self)
        requires
            old(self).velocity_ok(),
        ensures
            *final(self) == old(self).replanned(),
    {
        let ghost start = *self;
        match self.cell_type {
            CellType::Wall { wall_reflect } => {
                self.planned_transfer = wall_reflect;
            },
            CellType::Sea => {
                let share = SEA_LEVEL / 4;
                self.planned_transfer = [share, share, share, share];
            },
            CellType::Inside { level, velocity, .. } => {
                let (plan, planned_remaining) = plan_inside(level, velocity);
                self.planned_transfer = plan;
                self.cell_type = CellType::Inside { level, velocity, planned_remaining };
            },
        }
        proof {
            let r = start.replanned();
            WaterCell::lemma_make(r.kind(), r.transfers());
            match start.cell_type {
                CellType::Sea => {
                    assert(self.transfers() =~= r.transfers());
                },
                CellType::Inside { level, velocity, .. } => {
                    assert forall|d: int| 0 <= d < 4 implies #[trigger] self.transfers()[d] == r.transfers()[d] by {
                        assert(self.transfers()[d] == inside_transfer(level as int, velocity, d));
                    }
                    assert(self.transfers() =~= r.transfers());
                },
                CellType::Wall { wall_reflect } => {
                    assert(self.transfers() =~= r.transfers());
                },
            }
            WaterCell::lemma_ext(*self, r);
        }
    }
}

/// The momentum flow of an inside cell (see `momentum_flow`), when the
/// water moves at all.
fn momentum(level: u32, velocity: (i32, i32)) -> (r: (i32, i32))
    requires
        velocity_bounded(velocity),
        abs(velocity.0 as int) + abs(velocity.1 as int) > 0,
    ensures
        r.0 == momentum_flow(level as int, velocity).0,
        r.1 == momentum_flow(level as int, velocity).1,
        abs(r.0 as int) + abs(r.1 as int) <= FULL_LEVEL,
{
    let pressure_surplus = if level > 1024 {
        level - 1024
    } else {
        0
    };
    let abs_x: i32 = if velocity.0 < 0 {
        -velocity.0
    } else {
        velocity.0
    };
    let abs_y: i32 = if velocity.1 < 0 {
        -velocity.1
    } else {
        velocity.1
    };
    let total_velocity = abs_x + abs_y;
    let should_leave = total_velocity as u32;
    let kept = level - pressure_surplus;
    let inertia = if should_leave < kept {
        should_leave
    } else {
        kept
    };
    proof {
        assert(inertia <= 1024);
        assert(inertia == inertia_of(level as int, velocity));
        assert(-2147482624 <= velocity.0 * (inertia as int) <= 2147482624) by (nonlinear_arith)
            requires
                -2097151 <= velocity.0 <= 2097151,
                0 <= inertia <= 1024,
        ;
        assert(-2147482624 <= velocity.1 * (inertia as int) <= 2147482624) by (nonlinear_arith)
            requires
                -2097151 <= velocity.1 <= 2097151,
                0 <= inertia <= 1024,
        ;
    }
    let px = velocity.0 * inertia as i32;
    let py = velocity.1 * inertia as i32;
    let velocity_x = px / total_velocity;
    let velocity_y = py / total_velocity;
    proof {
        assert(total_velocity == abs(velocity.0 as int) + abs(velocity.1 as int));
        assert(velocity_x == tdiv(velocity.0 * inertia, total_velocity as int));
        assert(velocity_y == tdiv(velocity.1 * inertia, total_velocity as int));
        lemma_momentum_split(velocity, level as int, inertia as int, velocity_x as int, velocity_y as int);
    }
    let ax: i32 = if velocity_x < 0 {
        -velocity_x
    } else {
        velocity_x
    };
    let ay: i32 = if velocity_y < 0 {
        -velocity_y
    } else {
        velocity_y
    };
    let leftover = inertia as i32 - ax - ay;
    let velocity_y = if velocity_y > 0 {
        velocity_y + leftover
    } else if velocity_y < 0 {
        velocity_y - leftover
    } else {
        velocity_y
    };
    (velocity_x, velocity_y)
}

/// The plans of an inside cell: what it sends in each direction and what
/// it keeps.
fn plan_inside(level: u32, velocity: (i32, i32)) -> (r: ([u32; 4], u32))
    requires
        velocity_bounded(velocity),
    ensures
        forall|d: int| 0 <= d < 4 ==> #[trigger] r.0@[d] == inside_transfer(level as int, velocity, d),
        r.1 == inside_remaining(level as int, velocity),
{
    let pressure_surplus = if level > 1024 {
        level - 1024
    } else {
        0
    };
    let share = pressure_surplus / 4;
    let mut plan = [share, share, share, share];
    plan[0] = plan[0] + pressure_surplus % 4;
    let abs_x: i32 = if velocity.0 < 0 {
        -velocity.0
    } else {
        velocity.0
    };
    let abs_y: i32 = if velocity.1 < 0 {
        -velocity.1
    } else {
        velocity.1
    };
    let should_leave = (abs_x + abs_y) as u32;
    let kept = level - pressure_surplus;
    let inertia = if should_leave < kept {
        should_leave
    } else {
        kept
    };
    let planned_remaining = level - pressure_surplus - inertia;
    if abs_x + abs_y != 0 {
        let (velocity_x, velocity_y) = momentum(level, velocity);
        let down: u32 = if velocity_y > 0 {
            velocity_y as u32
        } else {
            0
        };
        let right: u32 = if velocity_x > 0 {
            velocity_x as u32
        } else {
            0
        };
        let up: u32 = if velocity_y < 0 {
            (-velocity_y) as u32
        } else {
            0
        };
        let left: u32 = if velocity_x < 0 {
            (-velocity_x) as u32
        } else {
            0
        };
        plan[0] = plan[0] + down;
        plan[1] = plan[1] + right;
        plan[2] = plan[2] + up;
        plan[3] = plan[3] + left;
    }
    (plan, planned_remaining)
}

/// Bounds on the momentum split that planning computes.
pub proof fn lemma_momentum_split(velocity: (i32, i32), level: int, inertia: int, vx: int, vy: int)
    requires
        velocity_bounded(velocity),
        0 <= inertia <= FULL_LEVEL,
        inertia <= abs(velocity.0 as int) + abs(velocity.1 as int),
        abs(velocity.0 as int) + abs(velocity.1 as int) > 0,
        vx == tdiv(velocity.0 * inertia, abs(velocity.0 as int) + abs(velocity.1 as int)),
        vy == tdiv(velocity.1 * inertia, abs(velocity.0 as int) + abs(velocity.1 as int)),
    ensures
        abs(vx) + abs(vy) <= inertia,
        abs(vx) <= inertia,
        abs(vy) <= inertia,
{
    let t = abs(velocity.0 as int) + abs(velocity.1 as int);
    let ax = abs(velocity.0 as int);
    let ay = abs(velocity.1 as int);
    assert(abs(vx) == (ax * inertia) / t) by (nonlinear_arith)
        requires
            vx == tdiv(velocity.0 * inertia, t),
            ax == abs(velocity.0 as int),
            t > 0,
            inertia >= 0,
    {
        if velocity.0 < 0 {
            assert(velocity.0 * inertia <= 0);
            assert(-(velocity.0 * inertia) == ax * inertia);
        } else {
            assert(velocity.0 * inertia >= 0);
        }
    }
    assert(abs(vy) == (ay * inertia) / t) by (nonlinear_arith)
        requires
            vy == tdiv(velocity.1 * inertia, t),
            ay == abs(velocity.1 as int),
            t > 0,
            inertia >= 0,
    {
        if velocity.1 < 0 {
            assert(velocity.1 * inertia <= 0);
            assert(-(velocity.1 * inertia) == ay * inertia);
        } else {
            assert(velocity.1 * inertia >= 0);
        }
    }
    assert((ax * inertia) / t + (ay * inertia) / t <= inertia) by (nonlinear_arith)
        requires
            t == ax + ay,
            t > 0,
            ax >= 0,
            ay >= 0,
            inertia >= 0,
    {
        assert((ax * inertia) / t * t <= ax * inertia);
        assert((ay * inertia) / t * t <= ay * inertia);
        assert(((ax * inertia) / t + (ay * inertia) / t) * t <= (ax + ay) * inertia);
    }
}

impl WaterCell {
    /// The cell with its kind replaced and its plans kept.
    pub open spec fn with_kind(&self, kind: CellType) -> WaterCell {
        WaterCell::make(kind, self.transfers())
    }

    /// An inside cell with its level replaced.
    pub open spec fn with_level(&self, level: u32) -> WaterCell {
        match self.kind() {
            CellType::Inside { velocity, planned_remaining, .. } => self.with_kind(
                CellType::Inside { level, velocity, planned_remaining },
            ),
            _ => *self,
        }
    }

    pub fn is_wall(&self) -> (r: bool)
        ensures
            r == self.spec_is_wall(),
    {
        matches!(self.cell_type, CellType::Wall { .. })
    }

    pub fn is_inside(&self) -> (r: bool)
        ensures
            r == self.spec_is_inside(),
    {
        matches!(self.cell_type, CellType::Inside { .. })
    }

    pub fn is_sea(&self) -> (r: bool)
        ensures
            r == self.spec_is_sea(),
    {
        matches!(self.cell_type, CellType::Sea)
    }

    /// Turns the cell into a wall that reflects nothing yet; its plans stay
    /// until the next update.
    pub fn make_wall(&mut self)
        ensures
            *final(self) == old(self).with_kind(CellType::Wall { wall_reflect: [0, 0, 0, 0] }),
    {
        let ghost start = *self;
        self.cell_type = CellType::Wall { wall_reflect: [0, 0, 0, 0] };
        proof {
            WaterCell::lemma_make(self.cell_type, start.transfers());
            WaterCell::lemma_ext(*self, start.with_kind(self.cell_type));
        }
    }

    /// Turns the cell into sea; its plans stay until the next update.
    pub fn make_sea(&mut self)
        ensures
            *final(self) == old(self).with_kind(CellType::Sea),
    {
        let ghost start = *self;
        self.cell_type = CellType::Sea;
        proof {
            WaterCell::lemma_make(self.cell_type, start.transfers());
            WaterCell::lemma_ext(*self, start.with_kind(self.cell_type));
        }
    }

    /// Turns the cell into an empty inside cell with no plans.
    pub fn make_inside(&mut self)
        ensures
            *final(self) == WaterCell::spec_empty_inside(),
    {
        self.cell_type = CellType::Inside { level: 0, velocity: (0, 0), planned_remaining: 0 };
        self.replan();
        proof {
            WaterCell::lemma_make(
                CellType::Inside { level: 0, velocity: (0, 0), planned_remaining: 0 },
                seq![0u32, 0u32, 0u32, 0u32],
            );
            assert(self.transfers() =~= seq![0u32, 0u32, 0u32, 0u32]);
            WaterCell::lemma_ext(*self, WaterCell::spec_empty_inside());
        }
    }

    /// Turns a wall into an empty inside cell; other cells are kept.
    pub fn clear_wall(&mut self)
        ensures
            *final(self) == if old(self).spec_is_wall() {
                WaterCell::spec_empty_inside()
            } else {
                *old(self)
            },
    {
        if self.is_wall() {
            self.make_inside();
        }
    }

    /// Pours a fixed amount of water into an inside cell, then replans.
    pub fn fill(&mut self)
        requires
            old(self).velocity_ok(),
            old(self).spec_is_inside() ==> old(self).spec_level() + FILL_AMOUNT <= u32::MAX,
        ensures
            *final(self) == (if old(self).spec_is_inside() {
                old(self).with_level((old(self).spec_level() + FILL_AMOUNT) as u32)
            } else {
                *old(self)
            }).replanned(),
    {
        let ghost start = *self;
        if let CellType::Inside { level, velocity, planned_remaining } = self.cell_type {
            self.cell_type = CellType::Inside { level: level + 16 * 1024, velocity, planned_remaining };
            proof {
                WaterCell::lemma_make(self.cell_type, start.transfers());
                WaterCell::lemma_ext(*self, start.with_level((start.spec_level() + FILL_AMOUNT) as u32));
            }
        }
        self.replan();
    }

    /// Drains an inside cell completely, then replans. Walls and the sea
    /// keep their water.
    pub fn empty(&mut self)
        requires
            old(self).velocity_ok(),
        ensures
            *final(self) == (if old(self).spec_is_inside() {
                old(self).with_level(0)
            } else {
                *old(self)
            }).replanned(),
    {
        let ghost start = *self;
        if let CellType::Inside { level, velocity, planned_remaining } = self.cell_type {
            self.cell_type = CellType::Inside { level: 0, velocity, planned_remaining };
            proof {
                WaterCell::lemma_make(self.cell_type, start.transfers());
                WaterCell::lemma_ext(*self, start.with_level(0));
            }
        }
        self.replan();
    }

    /// Pumps water into (positive `difference`) or out of (negative) an
    /// inside cell, then replans. Pumping in stops at `PUMP_LIMIT` and
    /// pumping out stops at an empty cell. Walls and the sea are kept.
    pub fn add_level(&mut self, difference: i32)
        requires
            old(self).velocity_ok(),
            difference != i32::MIN,
        ensures
            *final(self) == if old(self).spec_is_inside() {
                old(self).with_level(pumped_level(old(self).spec_level(), difference as int) as u32).replanned()
            } else {
                *old(self)
            },
    {
        let ghost start = *self;
        if let CellType::Inside { level, velocity, planned_remaining } = self.cell_type {
            let new_level = if difference >= 0 {
                let raised = level.saturating_add(difference as u32);
                if raised < 8096 {
                    raised
                } else {
                    8096
                }
            } else {
                level.saturating_sub((-difference) as u32)
            };
            self.cell_type = CellType::Inside { level: new_level, velocity, planned_remaining };
            proof {
                assert(new_level == pumped_level(start.spec_level(), difference as int));
                WaterCell::lemma_make(self.cell_type, start.transfers());
                WaterCell::lemma_ext(*self, start.with_level(new_level));
            }
            self.replan();
        }
    }
}

/// The level of an inside cell after pumping `difference`.
pub open spec fn pumped_level(level: int, difference: int) -> int {
    if difference >= 0 {
        min(min(level + difference, u32::MAX as int), PUMP_LIMIT as int)
    } else if level + difference < 0 {
        0
    } else {
        level + difference
    }
}

/// A wall that reflects nothing and plans nothing.
pub open spec fn bare_wall() -> WaterCell {
    WaterCell::make(CellType::Wall { wall_reflect: [0, 0, 0, 0] }, seq![0u32, 0u32, 0u32, 0u32])
}

/// Whether cell `k` of a new `width` x `height` grid is a wall: the floor
/// one row above the bottom, and from half the height down the two side
/// walls (second and second-to-last column) and a bulkhead at three
/// quarters of the width that stops at 90% of the height.
pub open spec fn initial_wall(width: int, height: int, k: int) -> bool {
    ||| exists|x: int| 1 <= x < width - 1 && k == #[trigger] cell_index(width, x, height - 2)
    ||| exists|y: int|
        height * 50 / 100 <= y < height - 1 && #[trigger] side_wall_at(
            width,
            k,
            y,
            height * 90 / 100,
            width * 3 / 4,
        )
}

/// Whether cell `k` is one of the walls laid in row `y`: the two side walls
/// and, above row `bulkhead_end`, the bulkhead in column `bulkhead_x`.
pub open spec fn side_wall_at(width: int, k: int, y: int, bulkhead_end: int, bulkhead_x: int) -> bool {
    ||| k == cell_index(width, 1, y)
    ||| k == cell_index(width, width - 2, y)
    ||| (y < bulkhead_end && k == cell_index(width, bulkhead_x, y))
}

/// Turns cell `k` of a new grid (which plans nothing) into a bare wall.
fn set_bare_wall(cells: &mut Vec<WaterCell>, k: usize)
    requires
        k < old(cells)@.len(),
        forall|i: int| 0 <= i < old(cells)@.len() ==> (#[trigger] old(cells)@[i]).transfers() == seq![0u32, 0u32, 0u32, 0u32],
    ensures
        final(cells)@ == old(cells)@.update(k as int, bare_wall()),
        forall|i: int| 0 <= i < final(cells)@.len() ==> (#[trigger] final(cells)@[i]).transfers() == seq![0u32, 0u32, 0u32, 0u32],
{
    let mut cell = cells[k];
    cell.make_wall();
    proof {
        WaterCell::lemma_make(CellType::Wall { wall_reflect: [0, 0, 0, 0] }, seq![0u32, 0u32, 0u32, 0u32]);
        WaterCell::lemma_make(CellType::Wall { wall_reflect: [0, 0, 0, 0] }, old(cells)@[k as int].transfers());
        WaterCell::lemma_ext(cell, bare_wall());
    }
    cells.set(k, cell);
}

/// Sizes for which a new grid can be laid out.
pub open spec fn grid_size_ok(width: int, height: int) -> bool {
    &&& width >= 1
    &&& height >= 1
    &&& width >= 3 ==> height >= 2
    &&& width * height <= usize::MAX
    &&& height * 90 <= usize::MAX
    &&& width * 3 <= usize::MAX
}

pub struct WaterGrid {
    cells: Vec<WaterCell>,
    width: usize,
    height: usize,
    total_water: u32,
    edges: Vec<(usize, usize)>,
}

impl WaterGrid {
    pub closed spec fn w(&self) -> int {
        self.width as int
    }

    pub closed spec fn h(&self) -> int {
        self.height as int
    }

    /// The cells in row-major order.
    pub closed spec fn cells(&self) -> Seq<WaterCell> {
        self.cells@
    }

    pub closed spec fn spec_total_water(&self) -> u32 {
        self.total_water
    }

    /// The wall cells that touch the sea, as last found by `update_edges`.
    pub closed spec fn spec_edges(&self) -> Seq<(usize, usize)> {
        self.edges@
    }

    pub open spec fn cell_at(&self, x: int, y: int) -> WaterCell {
        self.cells()[cell_index(self.w(), x, y)]
    }

    pub open spec fn in_bounds(&self, x: int, y: int) -> bool {
        0 <= x < self.w() && 0 <= y < self.h()
    }

    /// One cell per position.
    pub closed spec fn wf(&self) -> bool {
        self.cells@.len() == self.width * self.height
    }

    pub proof fn lemma_wf(&self)
        requires
            self.wf(),
        ensures
            self.cells().len() == self.w() * self.h(),
            0 <= self.w() <= usize::MAX,
            0 <= self.h() <= usize::MAX,
    {
    }

    /// Every inside cell moves slowly enough to plan with.
    pub open spec fn velocities_ok(&self) -> bool {
        forall|k: int| 0 <= k < self.cells().len() ==> (#[trigger] self.cells()[k]).velocity_ok()
    }

    /// A new grid with the default hull: the floor, the side walls and a
    /// bulkhead (see `initial_wall`); every other cell is empty inside.
    pub fn new(width: usize, height: usize) -> (g: WaterGrid)
        requires
            grid_size_ok(width as int, height as int),
        ensures
            g.wf(),
            g.w() == width,
            g.h() == height,
            g.spec_total_water() == 0,
            g.spec_edges().len() == 0,
            forall|k: int|
                0 <= k < g.cells().len() ==> #[trigger] g.cells()[k] == if initial_wall(
                    width as int,
                    height as int,
                    k,
                ) {
                    bare_wall()
                } else {
                    WaterCell::spec_empty_inside()
                },
    {
        let n = width * height;
        let mut cells: Vec<WaterCell> = Vec::new();
        let mut i: usize = 0;
        while i < n
            invariant
                i <= n,
                cells@.len() == i,
                forall|k: int| 0 <= k < i ==> #[trigger] cells@[k] == WaterCell::spec_empty_inside(),
            decreases n - i,
        {
            cells.push(WaterCell::default_cell());
            i = i + 1;
        }
        proof {
            WaterCell::lemma_make(CellType::Wall { wall_reflect: [0, 0, 0, 0] }, seq![0u32, 0u32, 0u32, 0u32]);
            WaterCell::lemma_make(
                CellType::Inside { level: 0, velocity: (0, 0), planned_remaining: 0 },
                seq![0u32, 0u32, 0u32, 0u32],
            );
        }

        let mut x: usize = 1;
        while x < width - 1
            invariant
                grid_size_ok(width as int, height as int),
                n == width * height,
                cells@.len() == n,
                1 <= x,
                x <= width - 1 || x == 1,
                forall|i: int| 0 <= i < cells@.len() ==> (#[trigger] cells@[i]).transfers() == seq![0u32, 0u32, 0u32, 0u32],
                forall|k: int|
                    0 <= k < n ==> #[trigger] cells@[k] == if (exists|xx: int| 1 <= xx < x && k == #[trigger] cell_index(width as int, xx, height - 2)) {
                        bare_wall()
                    } else {
                        WaterCell::spec_empty_inside()
                    },
            decreases width - x,
        {
            proof {
                lemma_cell_index_bounds(width as int, height as int, x as int, height - 2);
            }
            let k = (height - 2) * width + x;
            let ghost before = cells@;
            set_bare_wall(&mut cells, k);
            proof {
                assert forall|kk: int| 0 <= kk < n implies #[trigger] cells@[kk] == if (exists|xx: int| 1 <= xx < x + 1 && kk == #[trigger] cell_index(width as int, xx, height - 2)) {
                    bare_wall()
                } else {
                    WaterCell::spec_empty_inside()
                } by {
                    if kk == k {
                        assert(cell_index(width as int, x as int, height - 2) == kk);
                    } else {
                        if exists|xx: int| 1 <= xx < x + 1 && kk == #[trigger] cell_index(width as int, xx, height - 2) {
                            let xx = choose|xx: int| 1 <= xx < x + 1 && kk == #[trigger] cell_index(width as int, xx, height - 2);
                            assert(xx != x);
                        }
                    }
                }
            }
            x = x + 1;
        }
        proof {
            assert(x == width - 1 || (x == 1 && width <= 2));
            assert forall|k: int| 0 <= k < n implies #[trigger] cells@[k] == if (exists|xx: int| 1 <= xx < width - 1 && k == #[trigger] cell_index(width as int, xx, height - 2)) {
                bare_wall()
            } else {
                WaterCell::spec_empty_inside()
            } by {}
        }
        let y_start = height * 50 / 100;
        let y_bulkhead = height * 90 / 100;
        let x_bulkhead = width * 3 / 4;
        let mut y: usize = y_start;
        while y < height - 1
            invariant
                grid_size_ok(width as int, height as int),
                n == width * height,
                cells@.len() == n,
                y_start == height * 50 / 100,
                y_bulkhead == height * 90 / 100,
                x_bulkhead == width * 3 / 4,
                y_start <= y,
                y <= height - 1,
                forall|i: int| 0 <= i < cells@.len() ==> (#[trigger] cells@[i]).transfers() == seq![0u32, 0u32, 0u32, 0u32],
                forall|k: int|
                    0 <= k < n ==> #[trigger] cells@[k] == if (exists|xx: int| 1 <= xx < width - 1 && k == #[trigger] cell_index(width as int, xx, height - 2))
                        || (exists|yy: int| y_start <= yy < y && #[trigger] side_wall_at(width as int, k, yy, y_bulkhead as int, x_bulkhead as int)) {
                        bare_wall()
                    } else {
                        WaterCell::spec_empty_inside()
                    },
            decreases height - y,
        {
            proof {
                assert(y >= 1);
                assert(y * width + width <= height * width - width) by (nonlinear_arith)
                    requires
                        y + 2 <= height,
                        width >= 1,
                ;
                assert(y * width + width >= 2) by (nonlinear_arith)
                    requires
                        y >= 1,
                        width >= 1,
                ;
                assert(x_bulkhead < width);
                assert(height * width == width * height) by (nonlinear_arith);
            }
            let ghost before = cells@;
            let k1 = y * width + 1;
            let k2 = y * width + width - 2;
            set_bare_wall(&mut cells, k1);
            set_bare_wall(&mut cells, k2);
            let k3 = y * width + x_bulkhead;
            if y < y_bulkhead {
                set_bare_wall(&mut cells, k3);
            }
            proof {
                assert forall|kk: int| 0 <= kk < n implies #[trigger] cells@[kk] == if (exists|xx: int| 1 <= xx < width - 1 && kk == #[trigger] cell_index(width as int, xx, height - 2))
                    || (exists|yy: int| y_start <= yy < y + 1 && #[trigger] side_wall_at(width as int, kk, yy, y_bulkhead as int, x_bulkhead as int)) {
                    bare_wall()
                } else {
                    WaterCell::spec_empty_inside()
                } by {
                    let hit = kk == k1 || kk == k2 || (y < y_bulkhead && kk == k3);
                    assert(cell_index(width as int, 1, y as int) == k1);
                    assert(cell_index(width as int, width - 2, y as int) == k2);
                    assert(cell_index(width as int, x_bulkhead as int, y as int) == k3);
                    if hit {
                        assert(side_wall_at(width as int, kk, y as int, y_bulkhead as int, x_bulkhead as int));
                        assert(cells@[kk] == bare_wall());
                    } else {
                        assert(cells@[kk] == before[kk]);
                        assert(!side_wall_at(width as int, kk, y as int, y_bulkhead as int, x_bulkhead as int));
                        if exists|yy: int| y_start <= yy < y + 1 && #[trigger] side_wall_at(width as int, kk, yy, y_bulkhead as int, x_bulkhead as int) {
                            let yy = choose|yy: int| y_start <= yy < y + 1 && #[trigger] side_wall_at(width as int, kk, yy, y_bulkhead as int, x_bulkhead as int);
                            assert(yy != y);
                        }
                    }
                }
            }
            y = y + 1;
        }
        proof {
            assert forall|k: int| 0 <= k < n implies #[trigger] cells@[k] == if initial_wall(width as int, height as int, k) {
                bare_wall()
            } else {
                WaterCell::spec_empty_inside()
            } by {
                if exists|yy: int| y_start <= yy < y && #[trigger] side_wall_at(width as int, k, yy, y_bulkhead as int, x_bulkhead as int) {
                    let yy = choose|yy: int| y_start <= yy < y && #[trigger] side_wall_at(width as int, k, yy, y_bulkhead as int, x_bulkhead as int);
                    assert(height * 50 / 100 <= yy < height - 1);
                }
                if initial_wall(width as int, height as int, k) {
                    if exists|yy: int| height * 50 / 100 <= yy < height - 1 && #[trigger] side_wall_at(width as int, k, yy, height * 90 / 100, width * 3 / 4) {
                        let yy = choose|yy: int| height * 50 / 100 <= yy < height - 1 && #[trigger] side_wall_at(width as int, k, yy, height * 90 / 100, width * 3 / 4);
                        assert(y_start <= yy < y);
                    }
                }
            }
        }
        WaterGrid { cells, width, height, total_water: 0, edges: Vec::new() }
    }
}

/// The direction opposite to direction `i` (down, right, up, left).
pub open spec fn opposite(i: int) -> int {
    (i + 2) % 4
}

/// A cell after `WaterGrid::clear`: an inside cell is emptied and stopped,
/// a wall forgets what it reflects; plans are kept.
pub open spec fn cleared(c: WaterCell) -> WaterCell {
    match c.kind() {
        CellType::Inside { .. } => c.with_kind(
            CellType::Inside { level: 0, velocity: (0, 0), planned_remaining: 0 },
        ),
        CellType::Wall { .. } => c.with_kind(CellType::Wall { wall_reflect: [0, 0, 0, 0] }),
        CellType::Sea => c,
    }
}

impl WaterGrid {
    pub fn size(&self) -> (r: (usize, usize))
        ensures
            r.0 == self.w(),
            r.1 == self.h(),
    {
        (self.width, self.height)
    }

    pub fn total_water(&self) -> (r: u32)
        ensures
            r == self.spec_total_water(),
    {
        self.total_water
    }

    /// A grid of the given size whose cells start as the templates say
    /// (row by row): sea, wall (glass is a wall too), empty inside, or
    /// inside and filled once; with the walls that touch the sea found.
    pub fn from_cells(width: usize, height: usize, cells: &Vec<CellTemplate>) -> (g: WaterGrid)
        requires
            grid_size_ok(width as int, height as int),
            cells@.len() == width * height,
        ensures
            g.wf(),
            g.w() == width,
            g.h() == height,
            g.spec_total_water() == 0,
            forall|k: int|
                0 <= k < g.cells().len() ==> #[trigger] g.cells()[k] == templated_cell(
                    initial_cell(width as int, height as int, k),
                    cells@[k],
                ),
            g.spec_edges() == g.edge_rows(g.h() - 1),
    {
        let mut grid = WaterGrid::new(width, height);
        let n = width * height;
        let mut k: usize = 0;
        while k < n
            invariant
                grid.wf(),
                grid.w() == width,
                grid.h() == height,
                grid.spec_total_water() == 0,
                n == width * height,
                cells@.len() == n,
                k <= n,
                forall|j: int|
                    0 <= j < k ==> #[trigger] grid.cells()[j] == templated_cell(
                        initial_cell(width as int, height as int, j),
                        cells@[j],
                    ),
                forall|j: int| k <= j < n ==> #[trigger] grid.cells()[j] == initial_cell(width as int, height as int, j),
            decreases n - k,
        {
            let x = k % width;
            let y = k / width;
            proof {
                let xy = lemma_cell_coordinates(width as int, height as int, k as int);
                lemma_index_coordinates(width as int, xy.0, xy.1);
                assert(grid.cells().len() == n) by {
                    grid.lemma_wf();
                }
            }
            let ghost before = grid.cells();
            let template = cells[k];
            let cell = grid.cell_mut(x, y);
            apply_template(cell, template);
            proof {
                assert forall|j: int| 0 <= j < k + 1 implies #[trigger] grid.cells()[j] == templated_cell(
                    initial_cell(width as int, height as int, j),
                    cells@[j],
                ) by {
                    if j != k {
                        assert(grid.cells()[j] == before[j]);
                    }
                }
                assert forall|j: int| k + 1 <= j < n implies #[trigger] grid.cells()[j] == initial_cell(
                    width as int,
                    height as int,
                    j,
                ) by {
                    assert(grid.cells()[j] == before[j]);
                }
            }
            k = k + 1;
        }
        let ghost filled = grid;
        grid.update_edges();
        proof {
            WaterGrid::lemma_same_edges(grid, filled, grid.h() - 1);
        }
        grid
    }

    /// The number of wall cells.
    pub open spec fn spec_total_walls(&self) -> nat {
        walls_in(self.cells())
    }

    /// The number of inside cells.
    pub open spec fn spec_total_inside(&self) -> nat {
        inside_in(self.cells())
    }

    /// The number of wall cells: the hull's weight.
    pub fn total_walls(&self) -> (r: usize)
        ensures
            r == self.spec_total_walls(),
    {
        let mut count: usize = 0;
        let mut i: usize = 0;
        while i < self.cells.len()
            invariant
                i <= self.cells@.len(),
                count <= i,
                count == walls_in(self.cells@.take(i as int)),
            decreases self.cells@.len() - i,
        {
            assert(self.cells@.take(i as int) =~= self.cells@.take(i + 1).drop_last());
            if self.cells[i].is_wall() {
                count = count + 1;
            }
            i = i + 1;
        }
        assert(self.cells@.take(i as int) =~= self.cells@);
        count
    }

    /// The number of inside cells: the room the hull encloses.
    pub fn total_inside(&self) -> (r: usize)
        ensures
            r == self.spec_total_inside(),
    {
        let mut count: usize = 0;
        let mut i: usize = 0;
        while i < self.cells.len()
            invariant
                i <= self.cells@.len(),
                count <= i,
                count == inside_in(self.cells@.take(i as int)),
            decreases self.cells@.len() - i,
        {
            assert(self.cells@.take(i as int) =~= self.cells@.take(i + 1).drop_last());
            if self.cells[i].is_inside() {
                count = count + 1;
            }
            i = i + 1;
        }
        assert(self.cells@.take(i as int) =~= self.cells@);
        count
    }

    pub fn edges(&self) -> (r: &Vec<(usize, usize)>)
        ensures
            r@ == self.spec_edges(),
    {
        &self.edges
    }

    pub fn cell(&self, x: usize, y: usize) -> (r: &WaterCell)
        requires
            self.wf(),
            self.in_bounds(x as int, y as int),
        ensures
            *r == self.cell_at(x as int, y as int),
    {
        proof {
            lemma_cell_index_bounds(self.width as int, self.height as int, x as int, y as int);
        }
        let _len = self.cells.len();
        &self.cells[y * self.width + x]
    }

    pub fn cell_mut(&mut self, x: usize, y: usize) -> (r: &mut WaterCell)
        requires
            old(self).wf(),
            old(self).in_bounds(x as int, y as int),
        ensures
            *r == old(self).cell_at(x as int, y as int),
            final(self).cells() == old(self).cells().update(
                cell_index(old(self).w(), x as int, y as int),
                *final(r),
            ),
            final(self).wf(),
            final(self).w() == old(self).w(),
            final(self).h() == old(self).h(),
            final(self).spec_total_water() == old(self).spec_total_water(),
            final(self).spec_edges() == old(self).spec_edges(),
    {
        proof {
            lemma_cell_index_bounds(self.width as int, self.height as int, x as int, y as int);
        }
        let w = self.width;
        let _len = self.cells.len();
        &mut self.cells[y * w + x]
    }

    /// Empties every inside cell and stops its water; walls forget what
    /// they reflect. Plans are kept until the next update.
    pub fn clear(&mut self)
        requires
            old(self).wf(),
        ensures
            final(self).wf(),
            final(self).w() == old(self).w(),
            final(self).h() == old(self).h(),
            final(self).spec_total_water() == old(self).spec_total_water(),
            final(self).spec_edges() == old(self).spec_edges(),
            final(self).cells().len() == old(self).cells().len(),
            forall|k: int| 0 <= k < final(self).cells().len() ==> #[trigger] final(self).cells()[k] == cleared(old(self).cells()[k]),
    {
        let n = self.cells.len();
        let mut k: usize = 0;
        while k < n
            invariant
                self.wf(),
                self.width == old(self).width,
                self.height == old(self).height,
                self.total_water == old(self).total_water,
                self.edges == old(self).edges,
                n == self.cells@.len(),
                n == old(self).cells@.len(),
                k <= n,
                forall|i: int| 0 <= i < k ==> #[trigger] self.cells@[i] == cleared(old(self).cells@[i]),
                forall|i: int| k <= i < n ==> #[trigger] self.cells@[i] == old(self).cells@[i],
            decreases n - k,
        {
            let mut cell = self.cells[k];
            let ghost c0 = cell;
            match cell.cell_type {
                CellType::Inside { .. } => {
                    cell.cell_type = CellType::Inside { level: 0, velocity: (0, 0), planned_remaining: 0 };
                },
                CellType::Wall { .. } => {
                    cell.cell_type = CellType::Wall { wall_reflect: [0, 0, 0, 0] };
                },
                CellType::Sea => (),
            }
            proof {
                WaterCell::lemma_make(cell.cell_type, c0.transfers());
                if !(c0.cell_type is Sea) {
                    WaterCell::lemma_ext(cell, cleared(c0));
                }
            }
            self.cells.set(k, cell);
            k = k + 1;
        }
    }

    /// The neighbouring cells, in the order down, right, up, left.
    fn neighbours(&self, x: usize, y: usize) -> (r: [WaterCell; 4])
        requires
            self.wf(),
            1 <= x && x + 1 < self.w(),
            1 <= y && y + 1 < self.h(),
        ensures
            forall|i: int|
                0 <= i < 4 ==> #[trigger] r@[i] == self.cell_at(
                    neighbour_pos(x as int, y as int, i).0,
                    neighbour_pos(x as int, y as int, i).1,
                ),
    {
        [*self.cell(x, y + 1), *self.cell(x + 1, y), *self.cell(x, y - 1), *self.cell(x - 1, y)]
    }

    /// A wall that touches the sea.
    pub open spec fn is_edge(&self, x: int, y: int) -> bool {
        &&& self.cell_at(x, y).spec_is_wall()
        &&& exists|i: int|
            0 <= i < 4 && (#[trigger] self.cell_at(
                neighbour_pos(x, y, i).0,
                neighbour_pos(x, y, i).1,
            )).spec_is_sea()
    }

    /// The edges among the first `x` cells of row `y`, leaving out the
    /// border column.
    pub open spec fn edge_row(&self, y: int, x: int) -> Seq<(usize, usize)>
        decreases x,
    {
        if x <= 1 {
            Seq::empty()
        } else if self.is_edge(x - 1, y) {
            self.edge_row(y, x - 1).push(((x - 1) as usize, y as usize))
        } else {
            self.edge_row(y, x - 1)
        }
    }

    /// The edges of the first `y` rows, leaving out the border.
    pub open spec fn edge_rows(&self, y: int) -> Seq<(usize, usize)>
        decreases y,
    {
        if y <= 1 {
            Seq::empty()
        } else {
            self.edge_rows(y - 1) + self.edge_row(y - 1, self.w() - 1)
        }
    }

    /// Grids with the same cells have the same edges in a row.
    proof fn lemma_same_edge_row(a: WaterGrid, b: WaterGrid, y: int, x: int)
        requires
            a.cells() == b.cells(),
            a.w() == b.w(),
            a.h() == b.h(),
        ensures
            a.edge_row(y, x) == b.edge_row(y, x),
        decreases x,
    {
        if x > 1 {
            Self::lemma_same_edge_row(a, b, y, x - 1);
            let (cx, cy) = (x - 1, y);
            if a.is_edge(cx, cy) {
                let i = choose|i: int|
                    0 <= i < 4 && (#[trigger] a.cell_at(neighbour_pos(cx, cy, i).0, neighbour_pos(cx, cy, i).1)).spec_is_sea();
                assert(b.cell_at(neighbour_pos(cx, cy, i).0, neighbour_pos(cx, cy, i).1).spec_is_sea());
            }
            if b.is_edge(cx, cy) {
                let i = choose|i: int|
                    0 <= i < 4 && (#[trigger] b.cell_at(neighbour_pos(cx, cy, i).0, neighbour_pos(cx, cy, i).1)).spec_is_sea();
                assert(a.cell_at(neighbour_pos(cx, cy, i).0, neighbour_pos(cx, cy, i).1).spec_is_sea());
            }
        }
    }

    /// Grids with the same cells have the same edges.
    proof fn lemma_same_edges(a: WaterGrid, b: WaterGrid, y: int)
        requires
            a.cells() == b.cells(),
            a.w() == b.w(),
            a.h() == b.h(),
        ensures
            a.edge_rows(y) == b.edge_rows(y),
        decreases y,
    {
        if y > 1 {
            Self::lemma_same_edges(a, b, y - 1);
            Self::lemma_same_edge_row(a, b, y - 1, a.w() - 1);
        }
    }

    /// Finds the walls that touch the sea, in row-major order (the border
    /// is left out).
    pub fn update_edges(&mut self)
        requires
            old(self).wf(),
            old(self).w() >= 1,
            old(self).h() >= 1,
        ensures
            final(self).wf(),
            final(self).w() == old(self).w(),
            final(self).h() == old(self).h(),
            final(self).cells() == old(self).cells(),
            final(self).spec_total_water() == old(self).spec_total_water(),
            final(self).spec_edges() == old(self).edge_rows(old(self).h() - 1),
    {
        let mut edges: Vec<(usize, usize)> = Vec::new();
        let mut y: usize = 1;
        while y < self.height - 1
            invariant
                self.wf(),
                self.w() >= 1,
                self.h() >= 1,
                self.cells() == old(self).cells(),
                self.width == old(self).width,
                self.height == old(self).height,
                1 <= y,
                y <= self.h() - 1 || y == 1,
                edges@ == self.edge_rows(y as int),
            decreases self.h() - y,
        {
            let mut x: usize = 1;
            while x < self.width - 1
                invariant
                    self.wf(),
                    self.w() >= 1,
                    self.cells() == old(self).cells(),
                    1 <= y < self.h() - 1,
                    1 <= x,
                    x <= self.w() - 1 || x == 1,
                    edges@ == self.edge_rows(y as int) + self.edge_row(y as int, x as int),
                decreases self.w() - x,
            {
                if self.cell(x, y).is_wall() {
                    let nbs = self.neighbours(x, y);
                    let edge = nbs[0].is_sea() || nbs[1].is_sea() || nbs[2].is_sea() || nbs[3].is_sea();
                    proof {
                        if edge {
                            assert(self.is_edge(x as int, y as int)) by {
                                if nbs@[0].spec_is_sea() {
                                    assert(nbs@[0] == self.cell_at(neighbour_pos(x as int, y as int, 0).0, neighbour_pos(x as int, y as int, 0).1));
                                } else if nbs@[1].spec_is_sea() {
                                    assert(nbs@[1] == self.cell_at(neighbour_pos(x as int, y as int, 1).0, neighbour_pos(x as int, y as int, 1).1));
                                } else if nbs@[2].spec_is_sea() {
                                    assert(nbs@[2] == self.cell_at(neighbour_pos(x as int, y as int, 2).0, neighbour_pos(x as int, y as int, 2).1));
                                } else {
                                    assert(nbs@[3] == self.cell_at(neighbour_pos(x as int, y as int, 3).0, neighbour_pos(x as int, y as int, 3).1));
                                }
                            }
                        } else {
                            assert forall|i: int| 0 <= i < 4 implies !(#[trigger] self.cell_at(neighbour_pos(x as int, y as int, i).0, neighbour_pos(x as int, y as int, i).1)).spec_is_sea() by {
                                assert(nbs@[i] == self.cell_at(neighbour_pos(x as int, y as int, i).0, neighbour_pos(x as int, y as int, i).1));
                            }
                        }
                    }
                    if edge {
                        edges.push((x, y));
                    }
                }
                proof {
                    assert(self.edge_rows(y as int) + self.edge_row(y as int, x + 1) =~= if self.is_edge(x as int, y as int) {
                        (self.edge_rows(y as int) + self.edge_row(y as int, x as int)).push((x, y))
                    } else {
                        self.edge_rows(y as int) + self.edge_row(y as int, x as int)
                    });
                }
                x = x + 1;
            }
            proof {
                assert(x == self.w() - 1 || (x == 1 && self.w() <= 2));
                assert(self.edge_rows(y + 1) == self.edge_rows(y as int) + self.edge_row(y as int, self.w() - 1));
                if x == 1 {
                    assert(self.edge_row(y as int, self.w() - 1) == self.edge_row(y as int, 1));
                }
            }
            y = y + 1;
        }
        proof {
            if y == 1 {
                assert(self.edge_rows(self.h() - 1) == self.edge_rows(1));
            }
        }
        self.edges = edges;
    }
}

impl WaterGrid {
    /// Neighbour `i` (down, right, up, left) of `(x, y)`.
    pub open spec fn nb(&self, x: int, y: int, i: int) -> WaterCell {
        self.cell_at(neighbour_pos(x, y, i).0, neighbour_pos(x, y, i).1)
    }

    /// The water that neighbour `i` of `(x, y)` plans to send to it.
    pub open spec fn incoming(&self, x: int, y: int, i: int) -> int {
        self.nb(x, y, i).transfers()[opposite(i)] as int
    }

    /// What a wall at `(x, y)` reflects back towards neighbour `i`: the
    /// water that an inside neighbour sent into it.
    pub open spec fn reflected(&self, x: int, y: int, i: int) -> int {
        if self.nb(x, y, i).spec_is_inside() {
            self.incoming(x, y, i)
        } else {
            0
        }
    }

    /// The water that flows into `(x, y)` from all four neighbours.
    pub open spec fn gathered(&self, x: int, y: int) -> int {
        self.incoming(x, y, 0) + self.incoming(x, y, 1) + self.incoming(x, y, 2) + self.incoming(
            x,
            y,
            3,
        )
    }

    /// The push that the incoming water (with inertia) and gravity (unless
    /// the cell rests on a wall) give the water of `(x, y)`.
    pub open spec fn push(&self, x: int, y: int, gravity: bool, inertia: bool) -> (int, int) {
        (
            if inertia {
                self.incoming(x, y, 3) - self.incoming(x, y, 1)
            } else {
                0
            },
            (if inertia {
                self.incoming(x, y, 2) - self.incoming(x, y, 0)
            } else {
                0
            }) + (if gravity && !self.cell_at(x, y + 1).spec_is_wall() {
                32int
            } else {
                0int
            }),
        )
    }

    /// The velocity of the water of `(x, y)` after an update: three quarters
    /// of the old velocity plus a quarter of the push.
    pub open spec fn new_velocity(&self, x: int, y: int, gravity: bool, inertia: bool) -> (i32, i32) {
        let old = self.cell_at(x, y).spec_velocity();
        let push = self.push(x, y, gravity, inertia);
        (tdiv(old.0 * 3 + push.0, 4) as i32, tdiv(old.1 * 3 + push.1, 4) as i32)
    }

    /// The cell `(x, y)` (not on the border) after an update.
    pub open spec fn updated_cell(&self, x: int, y: int, gravity: bool, inertia: bool) -> WaterCell {
        match self.cell_at(x, y).kind() {
            CellType::Wall { .. } => {
                let r = [
                    self.reflected(x, y, 0) as u32,
                    self.reflected(x, y, 1) as u32,
                    self.reflected(x, y, 2) as u32,
                    self.reflected(x, y, 3) as u32,
                ];
                WaterCell::make(CellType::Wall { wall_reflect: r }, r@)
            },
            CellType::Sea => WaterCell::make(CellType::Sea, seq![0u32, 0u32, 0u32, 0u32]).replanned(),
            CellType::Inside { planned_remaining, .. } => WaterCell::make(
                CellType::Inside {
                    level: (planned_remaining + self.gathered(x, y)) as u32,
                    velocity: self.new_velocity(x, y, gravity, inertia),
                    planned_remaining: 0,
                },
                seq![0u32, 0u32, 0u32, 0u32],
            ).replanned(),
        }
    }

    /// The water that the updated cell `(x, y)` holds: all that an inside
    /// cell keeps and gathers, all that a wall reflects.
    pub open spec fn contribution(&self, x: int, y: int) -> int {
        match self.cell_at(x, y).kind() {
            CellType::Wall { .. } => self.reflected(x, y, 0) + self.reflected(x, y, 1)
                + self.reflected(x, y, 2) + self.reflected(x, y, 3),
            CellType::Sea => 0,
            CellType::Inside { planned_remaining, .. } => planned_remaining + self.gathered(x, y),
        }
    }

    /// The water held by the first `x` cells of row `y` after an update
    /// (the border column left out).
    pub open spec fn row_total(&self, y: int, x: int) -> int
        decreases x,
    {
        if x <= 1 {
            0
        } else {
            self.row_total(y, x - 1) + self.contribution(x - 1, y)
        }
    }

    /// The water held by the first `y` rows after an update (the border
    /// left out).
    pub open spec fn rows_total(&self, y: int) -> int
        decreases y,
    {
        if y <= 1 {
            0
        } else {
            self.rows_total(y - 1) + self.row_total(y - 1, self.w() - 1)
        }
    }

    /// The water in the grid after an update.
    pub open spec fn updated_total(&self) -> int {
        self.rows_total(self.h() - 1)
    }

    /// The grid is small enough, moves slowly enough and holds little enough
    /// water for an update to stay within its integer types.
    pub open spec fn update_fits(&self) -> bool {
        &&& self.wf()
        &&& grid_size_ok(self.w(), self.h())
        &&& self.w() < i32::MAX
        &&& self.h() < i32::MAX
        &&& self.velocities_ok()
        &&& self.transfers_fit()
        &&& self.updated_total() <= u32::MAX
    }
}

impl WaterGrid {
    /// Every cell's plans are small enough for an update.
    pub open spec fn transfers_fit(&self) -> bool {
        forall|k: int, d: int|
            0 <= k < self.cells().len() && 0 <= d < 4 ==> #[trigger] self.cells()[k].transfers()[d]
                <= MAX_TRANSFER
    }

    proof fn lemma_incoming_bounded(&self, x: int, y: int)
        requires
            self.wf(),
            self.transfers_fit(),
            1 <= x < self.w() - 1,
            1 <= y < self.h() - 1,
        ensures
            forall|i: int| 0 <= i < 4 ==> 0 <= #[trigger] self.incoming(x, y, i) <= MAX_TRANSFER,
    {
        assert forall|i: int| 0 <= i < 4 implies 0 <= #[trigger] self.incoming(x, y, i) <= MAX_TRANSFER by {
            let p = neighbour_pos(x, y, i);
            lemma_cell_index_bounds(self.w(), self.h(), p.0, p.1);
            assert(self.nb(x, y, i).transfers()[opposite(i)] <= MAX_TRANSFER);
        }
    }

    /// The updated cell `(x, y)` and the water it holds.
    #[verifier::rlimit(40)]
    fn updated_cell_exec(&self, x: usize, y: usize, gravity: bool, inertia: bool) -> (r: (WaterCell, u32))
        requires
            self.wf(),
            self.velocities_ok(),
            self.transfers_fit(),
            1 <= x && x + 1 < self.w(),
            1 <= y && y + 1 < self.h(),
            self.contribution(x as int, y as int) <= u32::MAX,
        ensures
            r.0 == self.updated_cell(x as int, y as int, gravity, inertia),
            r.1 == self.contribution(x as int, y as int),
            r.0.velocity_ok(),
    {
        proof {
            self.lemma_incoming_bounded(x as int, y as int);
            lemma_cell_index_bounds(self.w(), self.h(), x as int, y as int);
        }
        let old_cell = *self.cell(x, y);
        let nbs = self.neighbours(x, y);
        let in0 = nbs[0].planned_transfer[2];
        let in1 = nbs[1].planned_transfer[3];
        let in2 = nbs[2].planned_transfer[0];
        let in3 = nbs[3].planned_transfer[1];
        proof {
            assert(nbs@[0] == self.nb(x as int, y as int, 0));
            assert(nbs@[1] == self.nb(x as int, y as int, 1));
            assert(nbs@[2] == self.nb(x as int, y as int, 2));
            assert(nbs@[3] == self.nb(x as int, y as int, 3));
            assert(in0 == self.incoming(x as int, y as int, 0));
            assert(in1 == self.incoming(x as int, y as int, 1));
            assert(in2 == self.incoming(x as int, y as int, 2));
            assert(in3 == self.incoming(x as int, y as int, 3));
            assert(old_cell == self.cell_at(x as int, y as int));
            WaterCell::lemma_make(CellType::Sea, seq![0u32, 0u32, 0u32, 0u32]);
        }
        match old_cell.cell_type {
            CellType::Wall { .. } => {
                let r0 = if nbs[0].is_inside() { in0 } else { 0 };
                let r1 = if nbs[1].is_inside() { in1 } else { 0 };
                let r2 = if nbs[2].is_inside() { in2 } else { 0 };
                let r3 = if nbs[3].is_inside() { in3 } else { 0 };
                let wall_reflect = [r0, r1, r2, r3];
                let mut cell = WaterCell { cell_type: CellType::Wall { wall_reflect }, planned_transfer: [0, 0, 0, 0] };
                cell.replan();
                proof {
                    let spec = self.updated_cell(x as int, y as int, gravity, inertia);
                    WaterCell::lemma_make(CellType::Wall { wall_reflect }, wall_reflect@);
                    assert(wall_reflect@ =~= [
                        self.reflected(x as int, y as int, 0) as u32,
                        self.reflected(x as int, y as int, 1) as u32,
                        self.reflected(x as int, y as int, 2) as u32,
                        self.reflected(x as int, y as int, 3) as u32,
                    ]@);
                    assert(wall_reflect == [
                        self.reflected(x as int, y as int, 0) as u32,
                        self.reflected(x as int, y as int, 1) as u32,
                        self.reflected(x as int, y as int, 2) as u32,
                        self.reflected(x as int, y as int, 3) as u32,
                    ]);
                    WaterCell::lemma_ext(cell, spec);
                }
                (cell, r0 + r1 + r2 + r3)
            },
            CellType::Sea => {
                let mut cell = WaterCell { cell_type: CellType::Sea, planned_transfer: [0, 0, 0, 0] };
                proof {
                    WaterCell::lemma_ext(cell, WaterCell::make(CellType::Sea, seq![0u32, 0u32, 0u32, 0u32]));
                }
                cell.replan();
                (cell, 0)
            },
            CellType::Inside { velocity: old_velocity, planned_remaining, .. } => {
                let level = planned_remaining + in0 + in1 + in2 + in3;
                let mut push_x: i32 = 0;
                let mut push_y: i32 = 0;
                if inertia {
                    push_x = in3 as i32 - in1 as i32;
                    push_y = in2 as i32 - in0 as i32;
                }
                if gravity && !self.cell(x, y + 1).is_wall() {
                    push_y = push_y + 32;
                }
                proof {
                    assert(self.cell_at(x as int, y as int).velocity_ok());
                }
                let velocity = ((old_velocity.0 * 3 + push_x) / 4, (old_velocity.1 * 3 + push_y) / 4);
                let mut cell = WaterCell {
                    cell_type: CellType::Inside { level, velocity, planned_remaining: 0 },
                    planned_transfer: [0, 0, 0, 0],
                };
                proof {
                    assert((push_x as int, push_y as int) == self.push(x as int, y as int, gravity, inertia));
                    assert(velocity == self.new_velocity(x as int, y as int, gravity, inertia));
                    let kind = CellType::Inside { level, velocity, planned_remaining: 0 };
                    WaterCell::lemma_make(kind, seq![0u32, 0u32, 0u32, 0u32]);
                    WaterCell::lemma_ext(cell, WaterCell::make(kind, seq![0u32, 0u32, 0u32, 0u32]));
                }
                cell.replan();
                (cell, level)
            },
        }
    }
}

/// The sea cell that an update leaves on the border: it plans nothing.
pub open spec fn border_sea() -> WaterCell {
    WaterCell::make(CellType::Sea, seq![0u32, 0u32, 0u32, 0u32])
}

pub open spec fn is_interior(width: int, height: int, x: int, y: int) -> bool {
    1 <= x < width - 1 && 1 <= y < height - 1
}

impl WaterGrid {
    /// Writing one cell leaves every other position as it was.
    pub proof fn lemma_write_cell(before: WaterGrid, after: WaterGrid, x: int, y: int, c: WaterCell)
        requires
            before.wf(),
            after.wf(),
            after.w() == before.w(),
            after.h() == before.h(),
            before.in_bounds(x, y),
            after.cells() == before.cells().update(cell_index(before.w(), x, y), c),
        ensures
            after.cell_at(x, y) == c,
            forall|xx: int, yy: int|
                before.in_bounds(xx, yy) && !(xx == x && yy == y) ==> #[trigger] after.cell_at(xx, yy)
                    == before.cell_at(xx, yy),
    {
        lemma_cell_index_bounds(before.w(), before.h(), x, y);
        assert forall|xx: int, yy: int|
            before.in_bounds(xx, yy) && !(xx == x && yy == y) implies #[trigger] after.cell_at(xx, yy)
                == before.cell_at(xx, yy) by {
            lemma_cell_index_bounds(before.w(), before.h(), xx, yy);
            if cell_index(before.w(), xx, yy) == cell_index(before.w(), x, y) {
                lemma_cell_index_injective(before.w(), xx, yy, x, y);
            }
        }
    }

    proof fn lemma_row_total_mono(&self, y: int, x1: int, x2: int)
        requires
            x1 <= x2,
            forall|x: int| 1 <= x < x2 ==> #[trigger] self.contribution(x, y) >= 0,
        ensures
            self.row_total(y, x1) <= self.row_total(y, x2),
        decreases x2 - x1,
    {
        if x1 < x2 {
            self.lemma_row_total_mono(y, x1, x2 - 1);
            if x2 > 1 {
                assert(self.contribution(x2 - 1, y) >= 0);
            }
        }
    }

    proof fn lemma_rows_total_mono(&self, y1: int, y2: int)
        requires
            y1 <= y2,
            forall|x: int, y: int| 1 <= x < self.w() - 1 && 1 <= y < y2 ==> #[trigger] self.contribution(x, y) >= 0,
        ensures
            self.rows_total(y1) <= self.rows_total(y2),
        decreases y2 - y1,
    {
        if y1 < y2 {
            self.lemma_rows_total_mono(y1, y2 - 1);
            if y2 > 1 && self.w() - 1 >= 1 {
                self.lemma_row_total_mono(y2 - 1, 1, self.w() - 1);
                assert(self.row_total(y2 - 1, 1) == 0);
            }
        }
    }

    proof fn lemma_contribution_nonneg(&self)
        requires
            self.wf(),
        ensures
            forall|x: int, y: int| #[trigger] self.contribution(x, y) >= 0,
    {
    }

    /// Turns the cell at a position into sea and says what that leaves everywhere.
    fn set_sea(&mut self, x: usize, y: usize)
        requires
            old(self).wf(),
            old(self).in_bounds(x as int, y as int),
        ensures
            final(self).wf(),
            final(self).w() == old(self).w(),
            final(self).h() == old(self).h(),
            final(self).spec_total_water() == old(self).spec_total_water(),
            final(self).spec_edges() == old(self).spec_edges(),
            final(self).cell_at(x as int, y as int) == old(self).cell_at(x as int, y as int).with_kind(CellType::Sea),
            forall|xx: int, yy: int|
                old(self).in_bounds(xx, yy) && !(xx == x && yy == y) ==> #[trigger] final(self).cell_at(xx, yy)
                    == old(self).cell_at(xx, yy),
    {
        let ghost before = *self;
        let r = self.cell_mut(x, y);
        r.make_sea();
        proof {
            WaterGrid::lemma_write_cell(before, *self, x as int, y as int, before.cell_at(x as int, y as int).with_kind(CellType::Sea));
        }
    }

    /// One step of the water simulation.
    ///
    /// Every inside cell gathers what it kept and what its neighbours sent
    /// it, and its velocity moves a quarter of the way towards the push of
    /// the incoming water (with inertia) and gravity; every wall reflects
    /// what flowed into it; the sea keeps pushing. All cells then replan.
    /// The border becomes sea, the edge list is kept, and the total is the
    /// water held by all inside cells and walls.
    pub fn update(&mut self, enable_gravity: bool, enable_inertia: bool)
        requires
            old(self).update_fits(),
        ensures
            final(self).wf(),
            final(self).w() == old(self).w(),
            final(self).h() == old(self).h(),
            final(self).spec_edges() == old(self).spec_edges(),
            final(self).spec_total_water() == old(self).updated_total(),
            final(self).velocities_ok(),
            forall|x: int, y: int|
                old(self).in_bounds(x, y) ==> #[trigger] final(self).cell_at(x, y) == if is_interior(
                    old(self).w(),
                    old(self).h(),
                    x,
                    y,
                ) {
                    old(self).updated_cell(x, y, enable_gravity, enable_inertia)
                } else {
                    border_sea()
                },
    {
        let ghost g0 = *self;
        let mut new_grid = WaterGrid::new(self.width, self.height);
        std::mem::swap(self, &mut new_grid);
        let old_grid = new_grid;
        proof {
            old_grid.lemma_contribution_nonneg();
            assert forall|x: int, y: int| old_grid.in_bounds(x, y) implies (#[trigger] self.cell_at(x, y)).transfers() == seq![0u32, 0u32, 0u32, 0u32] && self.cell_at(x, y).velocity_ok() by {
                lemma_cell_index_bounds(self.w(), self.h(), x, y);
                WaterCell::lemma_make(CellType::Wall { wall_reflect: [0, 0, 0, 0] }, seq![0u32, 0u32, 0u32, 0u32]);
                WaterCell::lemma_make(CellType::Inside { level: 0, velocity: (0, 0), planned_remaining: 0 }, seq![0u32, 0u32, 0u32, 0u32]);
            }
        }
        let width = old_grid.width;
        let height = old_grid.height;
        let mut total: u32 = 0;
        let mut y: usize = 1;
        while y < height - 1
            invariant
                old_grid == g0,
                g0.update_fits(),
                self.wf(),
                self.w() == g0.w(),
                self.h() == g0.h(),
                width == g0.w(),
                height == g0.h(),
                1 <= y,
                y <= height - 1 || y == 1,
                total == g0.rows_total(y as int),
                forall|x: int, y: int| #[trigger] g0.contribution(x, y) >= 0,
                forall|xx: int, yy: int|
                    g0.in_bounds(xx, yy) ==> #[trigger] self.cell_at(xx, yy) == if is_interior(g0.w(), g0.h(), xx, yy) && yy < y {
                        g0.updated_cell(xx, yy, enable_gravity, enable_inertia)
                    } else {
                        self.cell_at(xx, yy)
                    },
                forall|xx: int, yy: int|
                    g0.in_bounds(xx, yy) && !(is_interior(g0.w(), g0.h(), xx, yy) && yy < y) ==> (#[trigger] self.cell_at(xx, yy)).transfers() == seq![0u32, 0u32, 0u32, 0u32],
                forall|xx: int, yy: int| g0.in_bounds(xx, yy) ==> (#[trigger] self.cell_at(xx, yy)).velocity_ok(),
            decreases height - y,
        {
            let mut x: usize = 1;
            while x < width - 1
                invariant
                    old_grid == g0,
                    g0.update_fits(),
                    self.wf(),
                    self.w() == g0.w(),
                    self.h() == g0.h(),
                    width == g0.w(),
                    height == g0.h(),
                    1 <= y < height - 1,
                    1 <= x,
                    x <= width - 1 || x == 1,
                    total == g0.rows_total(y as int) + g0.row_total(y as int, x as int),
                    forall|x: int, y: int| #[trigger] g0.contribution(x, y) >= 0,
                    forall|xx: int, yy: int|
                        g0.in_bounds(xx, yy) ==> #[trigger] self.cell_at(xx, yy) == if is_interior(g0.w(), g0.h(), xx, yy) && (yy < y || (yy == y && xx < x)) {
                            g0.updated_cell(xx, yy, enable_gravity, enable_inertia)
                        } else {
                            self.cell_at(xx, yy)
                        },
                    forall|xx: int, yy: int|
                        g0.in_bounds(xx, yy) && !(is_interior(g0.w(), g0.h(), xx, yy) && (yy < y || (yy == y && xx < x))) ==> (#[trigger] self.cell_at(xx, yy)).transfers() == seq![0u32, 0u32, 0u32, 0u32],
                    forall|xx: int, yy: int| g0.in_bounds(xx, yy) ==> (#[trigger] self.cell_at(xx, yy)).velocity_ok(),
                decreases width - x,
            {
                proof {
                    g0.lemma_row_total_mono(y as int, x + 1, g0.w() - 1);
                    g0.lemma_rows_total_mono(y + 1, g0.h() - 1);
                    assert(g0.rows_total(y + 1) == g0.rows_total(y as int) + g0.row_total(y as int, g0.w() - 1));
                    assert(g0.row_total(y as int, x + 1) == g0.row_total(y as int, x as int) + g0.contribution(x as int, y as int));
                }
                let (cell, water) = old_grid.updated_cell_exec(x, y, enable_gravity, enable_inertia);
                let ghost before = *self;
                let r = self.cell_mut(x, y);
                *r = cell;
                proof {
                    WaterGrid::lemma_write_cell(before, *self, x as int, y as int, cell);
                }
                total = total + water;
                x = x + 1;
            }
            proof {
                assert(x == width - 1 || (x == 1 && width <= 2));
                if x == 1 {
                    assert(g0.row_total(y as int, g0.w() - 1) == g0.row_total(y as int, 1));
                }
            }
            y = y + 1;
        }
        proof {
            assert(y == height - 1 || (y == 1 && height <= 2));
            if y == 1 {
                assert(g0.rows_total(g0.h() - 1) == g0.rows_total(1));
            }
        }

        // The grid edges weren't processed by the above loop
        let mut x: usize = 0;
        while x < width
            invariant
                g0.update_fits(),
                self.wf(),
                self.w() == g0.w(),
                self.h() == g0.h(),
                width == g0.w(),
                height == g0.h(),
                total == g0.updated_total(),
                x <= width,
                forall|xx: int, yy: int|
                    g0.in_bounds(xx, yy) ==> #[trigger] self.cell_at(xx, yy) == if is_interior(g0.w(), g0.h(), xx, yy) {
                        g0.updated_cell(xx, yy, enable_gravity, enable_inertia)
                    } else if (yy == 0 || yy == g0.h() - 1) && xx < x {
                        border_sea()
                    } else {
                        self.cell_at(xx, yy)
                    },
                forall|xx: int, yy: int|
                    g0.in_bounds(xx, yy) && !is_interior(g0.w(), g0.h(), xx, yy) ==> (#[trigger] self.cell_at(xx, yy)).transfers() == seq![0u32, 0u32, 0u32, 0u32],
                forall|xx: int, yy: int| g0.in_bounds(xx, yy) ==> (#[trigger] self.cell_at(xx, yy)).velocity_ok(),
            decreases width - x,
        {
            let ghost before = *self;
            self.set_sea(x, 0);
            proof {
                WaterCell::lemma_make(CellType::Sea, before.cell_at(x as int, 0).transfers());
                WaterCell::lemma_make(CellType::Sea, seq![0u32, 0u32, 0u32, 0u32]);
                WaterCell::lemma_ext(self.cell_at(x as int, 0), border_sea());
            }
            let ghost before = *self;
            self.set_sea(x, height - 1);
            proof {
                WaterCell::lemma_make(CellType::Sea, before.cell_at(x as int, height - 1).transfers());
                WaterCell::lemma_make(CellType::Sea, seq![0u32, 0u32, 0u32, 0u32]);
                WaterCell::lemma_ext(self.cell_at(x as int, height - 1), border_sea());
            }
            x = x + 1;
        }

        let mut y: usize = 0;
        while y < height
            invariant
                g0.update_fits(),
                self.wf(),
                self.w() == g0.w(),
                self.h() == g0.h(),
                width == g0.w(),
                height == g0.h(),
                total == g0.updated_total(),
                y <= height,
                forall|xx: int, yy: int|
                    g0.in_bounds(xx, yy) ==> #[trigger] self.cell_at(xx, yy) == if is_interior(g0.w(), g0.h(), xx, yy) {
                        g0.updated_cell(xx, yy, enable_gravity, enable_inertia)
                    } else if (yy == 0 || yy == g0.h() - 1) || ((xx == 0 || xx == g0.w() - 1) && yy < y) {
                        border_sea()
                    } else {
                        self.cell_at(xx, yy)
                    },
                forall|xx: int, yy: int|
                    g0.in_bounds(xx, yy) && !is_interior(g0.w(), g0.h(), xx, yy) ==> (#[trigger] self.cell_at(xx, yy)).transfers() == seq![0u32, 0u32, 0u32, 0u32],
                forall|xx: int, yy: int| g0.in_bounds(xx, yy) ==> (#[trigger] self.cell_at(xx, yy)).velocity_ok(),
            decreases height - y,
        {
            let ghost before = *self;
            self.set_sea(0, y);
            proof {
                WaterCell::lemma_make(CellType::Sea, before.cell_at(0, y as int).transfers());
                WaterCell::lemma_make(CellType::Sea, seq![0u32, 0u32, 0u32, 0u32]);
                WaterCell::lemma_ext(self.cell_at(0, y as int), border_sea());
            }
            let ghost before = *self;
            self.set_sea(width - 1, y);
            proof {
                WaterCell::lemma_make(CellType::Sea, before.cell_at(width - 1, y as int).transfers());
                WaterCell::lemma_make(CellType::Sea, seq![0u32, 0u32, 0u32, 0u32]);
                WaterCell::lemma_ext(self.cell_at(width - 1, y as int), border_sea());
            }
            y = y + 1;
        }

        proof {
            assert forall|k: int| 0 <= k < self.cells().len() implies (#[trigger] self.cells()[k]).velocity_ok() by {
                let xy = lemma_cell_coordinates(self.w(), self.h(), k);
                assert(self.cell_at(xy.0, xy.1) == self.cells()[k]);
            }
        }
        let ghost before_fields = *self;
        self.total_water = total;
        // Edge walls (or walls in general) stay the same on a grid update
        self.edges = old_grid.edges;
        proof {
            assert(self.cells() == before_fields.cells());
            assert forall|x: int, y: int| g0.in_bounds(x, y) implies #[trigger] self.cell_at(x, y) == before_fields.cell_at(x, y) by {}
        }
    }
}

} // verus!

verus! {

/// The rounding remainder of the momentum split has somewhere to go: the
/// water moves at all, and either it flows vertically or nothing is left
/// over.
pub open spec fn momentum_split_exact(level: int, velocity: (i32, i32)) -> bool {
    let total = abs(velocity.0 as int) + abs(velocity.1 as int);
    let inertia = inertia_of(level, velocity);
    let vx = tdiv(velocity.0 * inertia, total);
    let vy = tdiv(velocity.1 * inertia, total);
    total == 0 || vy != 0 || inertia - abs(vx) - abs(vy) == 0
}

/// With inertia on, the water flowing into an inside cell pushes it the way
/// it flows (with inertia off only gravity pushes): its new horizontal velocity is three quarters of the old one
/// plus a quarter of what its left neighbour sends right less what its right
/// neighbour sends left; its new vertical velocity likewise with what the
/// cell above sends down less what the cell below sends up (positive y is
/// down), plus gravity's 32 unless the cell rests on a wall. Both are
/// rounded towards zero.
pub proof fn law_inflow_pushes_water(g: WaterGrid, x: int, y: int, gravity: bool, inertia: bool)
    requires
        g.in_bounds(x - 1, y - 1),
        g.in_bounds(x + 1, y + 1),
        g.cell_at(x, y).spec_is_inside(),
    ensures
        ({
            let old = g.cell_at(x, y).spec_velocity();
            let v = g.updated_cell(x, y, gravity, inertia).spec_velocity();
            let from_left = g.cell_at(x - 1, y).transfers()[1] as int;
            let from_right = g.cell_at(x + 1, y).transfers()[3] as int;
            let from_above = g.cell_at(x, y - 1).transfers()[0] as int;
            let from_below = g.cell_at(x, y + 1).transfers()[2] as int;
            let fall = if gravity && !g.cell_at(x, y + 1).spec_is_wall() {
                32int
            } else {
                0int
            };
            let flow_x = if inertia {
                from_left - from_right
            } else {
                0
            };
            let flow_y = if inertia {
                from_above - from_below
            } else {
                0
            };
            v == (tdiv(3 * old.0 + flow_x, 4) as i32, tdiv(3 * old.1 + flow_y + fall, 4) as i32)
        }),
{
    broadcast use WaterCell::lemma_make;

    let c = g.cell_at(x, y);
    let nv = g.new_velocity(x, y, gravity, inertia);
    assert(g.incoming(x, y, 3) == g.cell_at(x - 1, y).transfers()[1] as int);
    assert(g.incoming(x, y, 1) == g.cell_at(x + 1, y).transfers()[3] as int);
    assert(g.incoming(x, y, 2) == g.cell_at(x, y - 1).transfers()[0] as int);
    assert(g.incoming(x, y, 0) == g.cell_at(x, y + 1).transfers()[2] as int);
    match c.kind() {
        CellType::Inside { planned_remaining, .. } => {
            let k = CellType::Inside {
                level: (planned_remaining + g.gathered(x, y)) as u32,
                velocity: nv,
                planned_remaining: 0,
            };
            let made = WaterCell::make(k, seq![0u32, 0u32, 0u32, 0u32]);
            assert(made.kind() == k);
            assert(g.updated_cell(x, y, gravity, inertia) == made.replanned());
            assert(made.replanned().spec_velocity() == nv);
        },
        _ => {},
    }
}

/// An updated inside cell holds what it kept plus everything its four
/// neighbours sent towards it; an updated wall sends back towards each
/// inside neighbour exactly what that neighbour sent into it.
pub proof fn law_water_gathers_and_reflects(g: WaterGrid, x: int, y: int, gravity: bool, inertia: bool)
    requires
        g.in_bounds(x - 1, y - 1),
        g.in_bounds(x + 1, y + 1),
        g.cell_at(x, y).spec_is_inside() ==> g.cell_at(x, y).kind()->Inside_planned_remaining + g.cell_at(
            x - 1,
            y,
        ).transfers()[1] + g.cell_at(x + 1, y).transfers()[3] + g.cell_at(x, y - 1).transfers()[0] + g.cell_at(
            x,
            y + 1,
        ).transfers()[2] <= u32::MAX,
    ensures
        ({
            let c = g.cell_at(x, y);
            let r = g.updated_cell(x, y, gravity, inertia);
            let sent = seq![
                g.cell_at(x, y + 1).transfers()[2] as int,
                g.cell_at(x + 1, y).transfers()[3] as int,
                g.cell_at(x, y - 1).transfers()[0] as int,
                g.cell_at(x - 1, y).transfers()[1] as int,
            ];
            let around = seq![
                g.cell_at(x, y + 1),
                g.cell_at(x + 1, y),
                g.cell_at(x, y - 1),
                g.cell_at(x - 1, y),
            ];
            &&& c.spec_is_inside() ==> r.spec_is_inside() && r.spec_level() == c.kind()->Inside_planned_remaining
                + sent[0] + sent[1] + sent[2] + sent[3]
            &&& c.spec_is_wall() ==> r.spec_is_wall() && forall|d: int|
                0 <= d < 4 ==> r.transfers()[d] == if around[d].spec_is_inside() {
                    sent[d]
                } else {
                    0
                }
        }),
{
    broadcast use WaterCell::lemma_make;

    let c = g.cell_at(x, y);
    assert(g.incoming(x, y, 3) == g.cell_at(x - 1, y).transfers()[1] as int);
    assert(g.incoming(x, y, 1) == g.cell_at(x + 1, y).transfers()[3] as int);
    assert(g.incoming(x, y, 2) == g.cell_at(x, y - 1).transfers()[0] as int);
    assert(g.incoming(x, y, 0) == g.cell_at(x, y + 1).transfers()[2] as int);
    match c.kind() {
        CellType::Inside { planned_remaining, .. } => {
            let k = CellType::Inside {
                level: (planned_remaining + g.gathered(x, y)) as u32,
                velocity: g.new_velocity(x, y, gravity, inertia),
                planned_remaining: 0,
            };
            let made = WaterCell::make(k, seq![0u32, 0u32, 0u32, 0u32]);
            assert(made.kind() == k);
            assert(g.updated_cell(x, y, gravity, inertia) == made.replanned());
        },
        CellType::Wall { .. } => {
            let rf = [
                g.reflected(x, y, 0) as u32,
                g.reflected(x, y, 1) as u32,
                g.reflected(x, y, 2) as u32,
                g.reflected(x, y, 3) as u32,
            ];
            let made = WaterCell::make(CellType::Wall { wall_reflect: rf }, rf@);
            assert(rf@.len() == 4);
            assert(made.transfers() == rf@);
        },
        _ => {},
    }
}

/// Planning neither creates nor loses water: what an inside cell plans to
/// send in the four directions plus what it plans to keep is its level.
/// (When the momentum split leaves a remainder and there is no vertical flow
/// to join, as for a level of 2 moving at (2, 1), the remainder is lost.)
pub proof fn law_replan_conserves_water(level: u32, velocity: (i32, i32))
    requires
        velocity_bounded(velocity),
        momentum_split_exact(level as int, velocity),
    ensures
        inside_transfer(level as int, velocity, 0) + inside_transfer(level as int, velocity, 1)
            + inside_transfer(level as int, velocity, 2) + inside_transfer(level as int, velocity, 3)
            + inside_remaining(level as int, velocity) == level,
{
    let l = level as int;
    let total = abs(velocity.0 as int) + abs(velocity.1 as int);
    let surplus = pressure_surplus(l);
    let inertia = inertia_of(l, velocity);
    assert(surplus / 4 * 4 + surplus % 4 == surplus);
    if total != 0 {
        let vx = tdiv(velocity.0 * inertia, total);
        let vy = tdiv(velocity.1 * inertia, total);
        lemma_momentum_split(velocity, l, inertia, vx, vy);
    }
}

/// Clearing twice is clearing once, and a cleared inside cell holds no water
/// and does not move.
pub proof fn law_clear_empties(c: WaterCell)
    ensures
        cleared(cleared(c)) == cleared(c),
        cleared(c).spec_is_inside() ==> cleared(c).spec_level() == 0 && cleared(c).spec_velocity() == (0i32, 0i32),
        cleared(c).spec_is_inside() == c.spec_is_inside(),
        cleared(c).spec_is_wall() == c.spec_is_wall(),
{
    WaterCell::lemma_make(CellType::Inside { level: 0, velocity: (0, 0), planned_remaining: 0 }, c.transfers());
    WaterCell::lemma_make(CellType::Wall { wall_reflect: [0, 0, 0, 0] }, c.transfers());
    let once = cleared(c);
    WaterCell::lemma_make(CellType::Inside { level: 0, velocity: (0, 0), planned_remaining: 0 }, once.transfers());
    WaterCell::lemma_make(CellType::Wall { wall_reflect: [0, 0, 0, 0] }, once.transfers());
    match c.kind() {
        CellType::Sea => {},
        _ => {
            WaterCell::lemma_ext(cleared(once), once);
        },
    }
}

/// A pump never fills a cell beyond `PUMP_LIMIT`, and never empties it
/// below nothing or raises it when pumping out.
pub proof fn law_pump_bounds(level: u32, difference: int)
    ensures
        difference >= 0 ==> pumped_level(level as int, difference) <= PUMP_LIMIT,
        difference < 0 ==> 0 <= pumped_level(level as int, difference) <= level,
        pumped_level(level as int, difference) >= 0,
{
}

/// Pumping water in and the same amount out again gives back the level, as
/// long as the limit did not cut the inflow.
pub proof fn law_pump_in_then_out(level: u32, difference: int)
    requires
        0 < difference,
        level + difference <= PUMP_LIMIT,
    ensures
        pumped_level(pumped_level(level as int, difference), -difference) == level,
{
}

} // verus!

verus! {

impl WaterCell {
    /// Replanning keeps what the cell is, its level and its velocity.
    pub proof fn lemma_replanned_keeps(c: WaterCell)
        ensures
            c.replanned().spec_is_inside() == c.spec_is_inside(),
            c.replanned().spec_is_wall() == c.spec_is_wall(),
            c.replanned().spec_is_sea() == c.spec_is_sea(),
            c.replanned().spec_level() == c.spec_level(),
            c.replanned().spec_velocity() == c.spec_velocity(),
    {
        match c.kind() {
            CellType::Wall { wall_reflect } => {
                WaterCell::lemma_make(c.kind(), wall_reflect@);
            },
            CellType::Sea => {
                WaterCell::lemma_make(CellType::Sea, seq![SEA_LEVEL / 4, SEA_LEVEL / 4, SEA_LEVEL / 4, SEA_LEVEL / 4]);
            },
            CellType::Inside { level, velocity, .. } => {
                WaterCell::lemma_make(
                    CellType::Inside {
                        level,
                        velocity,
                        planned_remaining: inside_remaining(level as int, velocity) as u32,
                    },
                    Seq::new(4, |d: int| inside_transfer(level as int, velocity, d) as u32),
                );
            },
        }
    }

    /// Setting the level of an inside cell keeps its velocity; other cells
    /// are kept.
    pub proof fn lemma_with_level_keeps(c: WaterCell, level: u32)
        ensures
            c.with_level(level).spec_is_inside() == c.spec_is_inside(),
            c.with_level(level).spec_is_wall() == c.spec_is_wall(),
            c.with_level(level).spec_velocity() == c.spec_velocity(),
            c.spec_is_inside() ==> c.with_level(level).spec_level() == level,
    {
        WaterCell::lemma_transfers_len(c);
        match c.kind() {
            CellType::Inside { velocity, planned_remaining, .. } => {
                WaterCell::lemma_make(CellType::Inside { level, velocity, planned_remaining }, c.transfers());
            },
            _ => {},
        }
    }
}

} // verus!

verus! {

impl WaterGrid {
    /// The water that the updated cell `(x, y)` will hold (see
    /// `contribution`).
    fn contribution_exec(&self, x: usize, y: usize) -> (r: u64)
        requires
            self.wf(),
            self.transfers_fit(),
            1 <= x && x + 1 < self.w(),
            1 <= y && y + 1 < self.h(),
        ensures
            r == self.contribution(x as int, y as int),
    {
        proof {
            self.lemma_incoming_bounded(x as int, y as int);
            lemma_cell_index_bounds(self.w(), self.h(), x as int, y as int);
        }
        let old_cell = *self.cell(x, y);
        let nbs = self.neighbours(x, y);
        let incoming: [u64; 4] = [
            nbs[0].planned_transfer[2] as u64,
            nbs[1].planned_transfer[3] as u64,
            nbs[2].planned_transfer[0] as u64,
            nbs[3].planned_transfer[1] as u64,
        ];
        proof {
            assert(incoming[0] == self.incoming(x as int, y as int, 0));
            assert(incoming[1] == self.incoming(x as int, y as int, 1));
            assert(incoming[2] == self.incoming(x as int, y as int, 2));
            assert(incoming[3] == self.incoming(x as int, y as int, 3));
        }
        match old_cell.cell_type {
            CellType::Wall { .. } => {
                let r0: u64 = if nbs[0].is_inside() { incoming[0] } else { 0 };
                let r1: u64 = if nbs[1].is_inside() { incoming[1] } else { 0 };
                let r2: u64 = if nbs[2].is_inside() { incoming[2] } else { 0 };
                let r3: u64 = if nbs[3].is_inside() { incoming[3] } else { 0 };
                r0 + r1 + r2 + r3
            },
            CellType::Sea => 0,
            CellType::Inside { planned_remaining, .. } => {
                planned_remaining as u64 + incoming[0] + incoming[1] + incoming[2] + incoming[3]
            },
        }
    }
}

} // verus!

verus! {

impl WaterGrid {
    /// Whether every cell moves slowly enough and plans small enough
    /// transfers for an update.
    fn cells_fit(&self) -> (r: bool)
        requires
            self.wf(),
        ensures
            r == (self.velocities_ok() && self.transfers_fit()),
    {
        let n = self.cells.len();
        let mut k: usize = 0;
        while k < n
            invariant
                self.wf(),
                n == self.cells().len(),
                k <= n,
                forall|j: int| 0 <= j < k ==> (#[trigger] self.cells()[j]).velocity_ok(),
                forall|j: int, d: int| 0 <= j < k && 0 <= d < 4 ==> #[trigger] self.cells()[j].transfers()[d] <= MAX_TRANSFER,
            decreases n - k,
        {
            let cell = self.cells[k];
            let (vx, vy) = cell.velocity();
            if vx < -MAX_VELOCITY || vx > MAX_VELOCITY || vy < -MAX_VELOCITY || vy > MAX_VELOCITY {
                proof {
                    assert(!self.cells()[k as int].velocity_ok());
                }
                return false;
            }
            let mut d: usize = 0;
            while d < 4
                invariant
                    self.wf(),
                    n == self.cells().len(),
                    k < n,
                    cell == self.cells()[k as int],
                    d <= 4,
                    forall|e: int| 0 <= e < d ==> #[trigger] self.cells()[k as int].transfers()[e] <= MAX_TRANSFER,
                decreases 4 - d,
            {
                if cell.planned_transfer[d] > MAX_TRANSFER {
                    proof {
                        assert(self.cells()[k as int].transfers()[d as int] > MAX_TRANSFER);
                    }
                    return false;
                }
                d = d + 1;
            }
            k = k + 1;
        }
        true
    }

    /// Whether an update of the grid stays within its integer types (see
    /// `update_fits`).
    pub fn fits_update(&self) -> (r: bool)
        requires
            self.wf(),
        ensures
            r == self.update_fits(),
    {
        let width = self.width;
        let height = self.height;
        let _n = self.cells.len();
        proof {
            self.lemma_wf();
        }
        if width < 1 || height < 1 || (width >= 3 && height < 2) {
            return false;
        }
        if height.checked_mul(90).is_none() || width.checked_mul(3).is_none() {
            return false;
        }
        if width >= 0x7fff_ffff || height >= 0x7fff_ffff {
            return false;
        }
        if !self.cells_fit() {
            return false;
        }
        proof {
            self.lemma_contribution_nonneg();
        }
        let mut total: u64 = 0;
        let mut y: usize = 1;
        while y < height - 1
            invariant
                self.wf(),
                self.transfers_fit(),
                self.velocities_ok(),
                width == self.w(),
                height == self.h(),
                1 <= width,
                1 <= height,
                1 <= y,
                y <= height - 1 || y == 1,
                total == self.rows_total(y as int),
                total <= u32::MAX,
                forall|x: int, y: int| #[trigger] self.contribution(x, y) >= 0,
            decreases height - y,
        {
            let mut x: usize = 1;
            while x < width - 1
                invariant
                    self.wf(),
                    self.transfers_fit(),
                    self.velocities_ok(),
                    width == self.w(),
                    height == self.h(),
                    1 <= width,
                    1 <= y < height - 1,
                    1 <= x,
                    x <= width - 1 || x == 1,
                    total == self.rows_total(y as int) + self.row_total(y as int, x as int),
                    total <= u32::MAX,
                    forall|x: int, y: int| #[trigger] self.contribution(x, y) >= 0,
                decreases width - x,
            {
                let c = self.contribution_exec(x, y);
                proof {
                    self.lemma_incoming_bounded(x as int, y as int);
                    assert(self.row_total(y as int, x + 1) == self.row_total(y as int, x as int) + self.contribution(x as int, y as int));
                }
                if c > 0xffff_ffff || total + c > 0xffff_ffff {
                    proof {
                        self.lemma_row_total_mono(y as int, x + 1, self.w() - 1);
                        self.lemma_rows_total_mono(y + 1, self.h() - 1);
                        assert(self.rows_total(y + 1) == self.rows_total(y as int) + self.row_total(y as int, self.w() - 1));
                    }
                    return false;
                }
                total = total + c;
                x = x + 1;
            }
            proof {
                if x == 1 {
                    assert(self.row_total(y as int, self.w() - 1) == self.row_total(y as int, 1));
                }
            }
            y = y + 1;
        }
        proof {
            assert(y == height - 1 || (y == 1 && height <= 2));
            if y == 1 {
                assert(self.rows_total(self.h() - 1) == self.rows_total(1));
            }
        }
        true
    }
}

} // verus!
