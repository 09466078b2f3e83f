use cybersub::docking::{update_docking_points, update_position};
use cybersub::objects::{DoorState, Object, ObjectType};
use cybersub::sonar::Sonar;
use cybersub::state::{DockingDirection, DockingPoint, Navigation, SubmarineState};
use cybersub::water::WaterGrid;
use cybersub::wires::WireGrid;

fn submarine(connector: ObjectType, position: (i32, i32)) -> SubmarineState {
    let mut navigation = Navigation::default();
    navigation.position = position;
    SubmarineState {
        background_pixels: Vec::new(),
        water_grid: WaterGrid::new(4, 4),
        wire_grid: WireGrid::new(4, 4),
        objects: vec![
            Object { object_type: ObjectType::Lamp, position: (1, 1), powered: false },
            Object { object_type: connector, position: (0, 0), powered: false },
        ],
        sonar: Sonar::default(),
        navigation,
        collisions: Vec::new(),
        docking_points: Vec::new(),
    }
}

fn bottom() -> ObjectType {
    ObjectType::DockingConnectorBottom {
        state: DoorState::Closing,
        progress: 0,
        connected: true,
        previous_connected: false,
    }
}

fn top() -> ObjectType {
    ObjectType::DockingConnectorTop { state: DoorState::Closing, progress: 0, connected: false, previous_connected: false }
}

#[test]
fn facing_connectors_that_meet_dock() {
    let mut subs = vec![submarine(bottom(), (0, 0)), submarine(top(), (0, 64))];
    update_docking_points(&mut subs);
    let a = subs[0].docking_points[0];
    let b = subs[1].docking_points[0];
    assert_eq!(subs[0].docking_points.len(), 1);
    assert_eq!(a.connection_point, (176, 112));
    assert_eq!(b.connection_point, (176, 112));
    assert_eq!(a.direction, DockingDirection::Bottom);
    assert_eq!(a.connector_object_id, 1);
    assert_eq!(a.connected_to, Some((1, 1)));
    assert_eq!(b.connected_to, Some((0, 1)));
    assert_eq!(a.in_proximity_to, Some((176, 112)));
    assert_eq!(a.speed_offset, (0, 0));
    assert!(matches!(subs[0].objects[1].object_type, ObjectType::DockingConnectorBottom { connected: true, .. }));
    assert!(matches!(subs[1].objects[1].object_type, ObjectType::DockingConnectorTop { connected: true, .. }));
    assert_eq!(subs[0].objects[0].object_type, ObjectType::Lamp);
}

#[test]
fn near_connectors_pull_their_submarines_together() {
    let mut subs = vec![submarine(bottom(), (0, 0)), submarine(top(), (10, 84))];
    update_docking_points(&mut subs);
    let a = subs[0].docking_points[0];
    let b = subs[1].docking_points[0];
    assert_eq!(a.connected_to, None);
    assert_eq!(a.in_proximity_to, Some(b.connection_point));
    assert_eq!(b.in_proximity_to, Some(a.connection_point));
    assert_eq!(a.speed_offset, (1, 1));
    assert_eq!(b.speed_offset, (-1, -1));
    assert!(matches!(subs[0].objects[1].object_type, ObjectType::DockingConnectorBottom { connected: false, .. }));
}

#[test]
fn far_or_parallel_connectors_do_nothing() {
    let mut subs = vec![submarine(bottom(), (0, 0)), submarine(top(), (0, 64 + 128 * 16))];
    update_docking_points(&mut subs);
    assert_eq!(subs[0].docking_points[0].in_proximity_to, None);
    let mut subs = vec![submarine(top(), (0, 0)), submarine(top(), (0, 0))];
    update_docking_points(&mut subs);
    assert_eq!(subs[0].docking_points[0].in_proximity_to, None);
    assert_eq!(subs[1].docking_points[0].connected_to, None);
}

#[test]
fn docked_submarines_move_together() {
    let mut subs = vec![submarine(bottom(), (0, 0)), submarine(top(), (100, 100))];
    subs[0].navigation.speed = (512, 0);
    subs[0].docking_points.push(DockingPoint {
        connection_point: (0, 0),
        connector_object_id: 1,
        connected_to: Some((1, 1)),
        in_proximity_to: None,
        speed_offset: (0, 0),
        direction: DockingDirection::Bottom,
    });
    subs[1].navigation.docking_override = (3, -2);
    update_position(&mut subs);
    assert_eq!(subs[0].navigation.position, (1, 0));
    assert_eq!(subs[1].navigation.position, (104, 98));
    assert_eq!(subs[0].navigation.speed, (512, 0));
}

#[test]
fn lone_submarines_move_by_their_own_speed() {
    let mut subs = vec![submarine(bottom(), (0, 0)), submarine(top(), (0, 0))];
    subs[0].navigation.speed = (-1024, 2048);
    update_position(&mut subs);
    assert_eq!(subs[0].navigation.position, (-4, 8));
    assert_eq!(subs[1].navigation.position, (0, 0));
}
