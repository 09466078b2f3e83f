//! The parts of a submarine's state that its objects steer.

use crate::objects::Object;
use crate::sonar::Sonar;
use crate::water::WaterGrid;
use crate::wires::WireGrid;
use vstd::prelude::*;

verus! {

/// Where a submarine is, where it wants to go, and how it moves; all in
/// sixteenths of a rock cell.
#[derive(Clone, Copy, PartialEq, Eq, Debug)]
pub struct Navigation {
    pub target: (i32, i32),
    pub position: (i32, i32),
    pub speed: (i32, i32),
    pub docking_override: (i32, i32),
    pub acceleration: (i32, i32),
}

impl Default for Navigation {
    fn default() -> (r: Self)
        ensures
            r == (Navigation {
                target: (0, 0),
                position: (0, 0),
                speed: (0, 0),
                docking_override: (0, 0),
                acceleration: (0, 0),
            }),
    {
        Navigation {
            target: (0, 0),
            position: (0, 0),
            speed: (0, 0),
            docking_override: (0, 0),
            acceleration: (0, 0),
        }
    }
}

} // verus!

verus! {

#[derive(Clone, Copy, PartialEq, Eq, Structural, Debug)]
pub enum DockingDirection {
    Top,
    Bottom,
}

/// A docking connector's mouth, in world coordinates (sixteenths of a
/// cell), and what it is docked to or near.
#[derive(Clone, Copy, PartialEq, Eq, Debug)]
pub struct DockingPoint {
    pub connection_point: (i32, i32),
    pub connector_object_id: usize,
    pub connected_to: Option<(usize, usize)>,
    pub in_proximity_to: Option<(i32, i32)>,
    pub speed_offset: (i32, i32),
    pub direction: DockingDirection,
}

/// A submarine: its grids, its objects, where it is and what it touches.
pub struct SubmarineState {
    pub background_pixels: Vec<u8>,
    pub water_grid: WaterGrid,
    pub wire_grid: WireGrid,
    pub objects: Vec<Object>,
    pub sonar: Sonar,
    pub navigation: Navigation,
    pub collisions: Vec<(usize, usize)>,
    pub docking_points: Vec<DockingPoint>,
}

} // verus!
