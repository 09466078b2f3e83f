use cybersub::navigation::update_navigation;
use cybersub::sonar::Sonar;
use cybersub::state::{DockingDirection, DockingPoint, Navigation, SubmarineState};
use cybersub::water::WaterGrid;
use cybersub::wires::WireGrid;

fn submarine(navigation: Navigation, docking_points: Vec<DockingPoint>) -> SubmarineState {
    SubmarineState {
        background_pixels: Vec::new(),
        water_grid: WaterGrid::new(64, 64),
        wire_grid: WireGrid::new(64, 64),
        objects: Vec::new(),
        sonar: Sonar::default(),
        navigation,
        collisions: Vec::new(),
        docking_points,
    }
}

fn point(speed_offset: (i32, i32)) -> DockingPoint {
    DockingPoint {
        connection_point: (0, 0),
        connector_object_id: 0,
        connected_to: None,
        in_proximity_to: None,
        speed_offset,
        direction: DockingDirection::Top,
    }
}

#[test]
fn default_hull_counts_its_walls_and_room() {
    let grid = WaterGrid::new(64, 64);
    // The floor (62 cells), two side walls of 30 cells above it and a
    // bulkhead of 25 cells.
    assert_eq!(grid.total_walls(), 147);
    assert_eq!(grid.total_inside(), 64 * 64 - 147);
}

#[test]
fn buoyancy_lifts_an_empty_hull() {
    let navigation = Navigation {
        target: (5, 6),
        position: (100, 200),
        speed: (2047, 5),
        docking_override: (9, 9),
        acceleration: (10, 0),
    };
    let mut sub = submarine(navigation, vec![point((3, -1)), point((-1, 2))]);
    update_navigation(&mut sub);
    // buoyancy = -147 * 16 + 3949 * 13 = 48985; 48985 * 147 / 1024 / 100 = 70;
    // -70 / 8 = -8, and the hull's mass is 1.
    assert_eq!(sub.navigation.acceleration, (10, -8));
    assert_eq!(sub.navigation.speed, (2048, -3));
    assert_eq!(sub.navigation.docking_override, (2, 1));
    assert_eq!(sub.navigation.position, (100, 200));
    assert_eq!(sub.navigation.target, (5, 6));
}

#[test]
fn speed_stays_within_limits() {
    let navigation = Navigation {
        target: (0, 0),
        position: (0, 0),
        speed: (-2040, -2045),
        docking_override: (0, 0),
        acceleration: (-100, 0),
    };
    let mut sub = submarine(navigation, Vec::new());
    update_navigation(&mut sub);
    assert_eq!(sub.navigation.speed, (-2048, -2048));
    assert_eq!(sub.navigation.docking_override, (0, 0));
}
