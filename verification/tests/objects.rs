use cybersub::object_update::update_objects;
use cybersub::objects::{
    compute_navigation, current_frame, cycle_i8, interact_with_object, DoorState, NavControl, Object,
    ObjectTemplate, ObjectType,
};
use cybersub::state::Navigation;
use cybersub::water::WaterGrid;
use cybersub::wires::{WireColor, WireGrid};

fn object(object_type: ObjectType) -> Object {
    Object { object_type, position: (2, 2), powered: false }
}

#[test]
fn toggle_turns_a_door_around() {
    assert_eq!(DoorState::Opening.toggle(), DoorState::Closing);
    assert_eq!(DoorState::Closing.toggle(), DoorState::Opening);
    assert_eq!(DoorState::Opening.toggle().toggle(), DoorState::Opening);
    assert_eq!(DoorState::default(), DoorState::Closing);
}

#[test]
fn speeds_cycle_through_five_settings() {
    let mut value = 0i8;
    let mut seen = Vec::new();
    for _ in 0..5 {
        cycle_i8(&mut value);
        seen.push(value);
    }
    assert_eq!(seen, vec![64, 127, -128, -64, 0]);
    let mut odd = 5i8;
    cycle_i8(&mut odd);
    assert_eq!(odd, 0);
}

#[test]
fn clicks_change_objects() {
    let mut door = object(ObjectType::Door { state: DoorState::Closing, progress: 3 });
    interact_with_object(&mut door);
    assert_eq!(door.object_type, ObjectType::Door { state: DoorState::Opening, progress: 3 });
    let mut reactor = object(ObjectType::Reactor { active: false });
    interact_with_object(&mut reactor);
    assert_eq!(reactor.object_type, ObjectType::Reactor { active: true });
    let mut plug = object(ObjectType::BundleOutput { sub_bundle: 7 });
    interact_with_object(&mut plug);
    assert_eq!(plug.object_type, ObjectType::BundleOutput { sub_bundle: 0 });
    let mut pump = object(ObjectType::LargePump { target_speed: 64, speed: 3, progress: 9 });
    interact_with_object(&mut pump);
    assert_eq!(pump.object_type, ObjectType::LargePump { target_speed: 127, speed: 3, progress: 9 });
    let mut lamp = object(ObjectType::Lamp);
    interact_with_object(&mut lamp);
    assert_eq!(lamp.object_type, ObjectType::Lamp);
    assert_eq!(lamp.position, (2, 2));
}

#[test]
fn frames_follow_the_state() {
    let mut door = object(ObjectType::Door { state: DoorState::Opening, progress: 15 });
    assert_eq!(current_frame(&door), (7, 0));
    door.powered = true;
    assert_eq!(current_frame(&door), (23, 0));
    assert_eq!(current_frame(&object(ObjectType::Battery { charge: 5400 })), (0, 0));
    assert_eq!(current_frame(&object(ObjectType::Battery { charge: 1 })), (6, 0));
    assert_eq!(current_frame(&object(ObjectType::Battery { charge: 0 })), (7, 0));
    assert_eq!(current_frame(&object(ObjectType::Gauge { value: -100 })), (0, 0));
    assert_eq!(current_frame(&object(ObjectType::Gauge { value: 0 })), (2, 0));
    assert_eq!(current_frame(&object(ObjectType::Gauge { value: 100 })), (4, 0));
    assert_eq!(current_frame(&object(ObjectType::Engine { target_speed: 0, speed: 0, progress: 255 })), (23, 0));
    assert_eq!(current_frame(&object(ObjectType::SmallPump { target_speed: 0, speed: 0, progress: 200 })), (3, 0));
    assert_eq!(current_frame(&object(ObjectType::JunctionBox { enabled: true, progress: 15 })), (9, 0));
    assert_eq!(current_frame(&object(ObjectType::VerticalDoor { state: DoorState::Closing, progress: 8 })), (4, 0));
}

#[test]
fn navigation_steers_towards_the_target() {
    let mut navigation = Navigation::default();
    navigation.target = (10_000, -10_000);
    let control = compute_navigation(&navigation);
    assert_eq!(
        control,
        NavControl {
            target_speed: (2048, -2048),
            target_acceleration: (4, -3),
            engine_and_pump_speed: (128, -96),
        }
    );
    navigation.target = (1000, 0);
    let control = compute_navigation(&navigation);
    assert_eq!(control.target_speed, (250, 0));
    assert_eq!(control.engine_and_pump_speed, (0, 0));
}

#[test]
fn templates_store_everything_but_power() {
    let mut sonar = object(ObjectType::Sonar { active: true, navigation_target: Some((4, 5)) });
    sonar.powered = true;
    let template = ObjectTemplate::from_object(&sonar);
    assert_eq!(template.position, (2, 2));
    let back = template.to_object();
    assert_eq!(back.object_type, sonar.object_type);
    assert_eq!(back.position, sonar.position);
    assert!(!back.powered);
    assert_eq!(ObjectTemplate::from_object(&back).object_type, template.object_type);
}

#[test]
fn active_sonar_target_needs_power() {
    let mut sonar = object(ObjectType::Sonar { active: true, navigation_target: None });
    assert_eq!(sonar.active_sonar_target(), None);
    sonar.powered = true;
    assert_eq!(sonar.active_sonar_target(), Some(None));
    assert_eq!(object(ObjectType::Lamp).active_sonar_target(), None);
}

#[test]
fn a_door_closes_and_opens_the_hull() {
    let mut water = WaterGrid::new(30, 20);
    let mut wire = WireGrid::new(30, 20);
    let mut navigation = Navigation::default();
    let mut objects = vec![Object {
        object_type: ObjectType::Door { state: DoorState::Closing, progress: 0 },
        position: (2, 2),
        powered: false,
    }];
    let mut walls_updated = false;
    update_objects(&mut objects, &mut water, &mut wire, &mut navigation, &mut walls_updated);
    assert!(walls_updated);
    for x in 7..20 {
        for y in 5..8 {
            assert!(water.cell(x, y).is_wall());
        }
    }
    interact_with_object(&mut objects[0]);
    for _ in 0..15 {
        update_objects(&mut objects, &mut water, &mut wire, &mut navigation, &mut walls_updated);
    }
    assert_eq!(objects[0].object_type, ObjectType::Door { state: DoorState::Opening, progress: 15 });
    for x in 7..19 {
        assert!(water.cell(x, 6).is_inside());
    }
    assert!(water.cell(19, 6).is_wall());
    let mut walls_updated = false;
    update_objects(&mut objects, &mut water, &mut wire, &mut navigation, &mut walls_updated);
    assert!(!walls_updated);
}

#[test]
fn a_powered_lamp_lights_up() {
    let mut water = WaterGrid::new(20, 10);
    let mut wire = WireGrid::new(20, 10);
    let mut navigation = Navigation::default();
    wire.make_wire(5, 3, WireColor::Purple);
    wire.make_wire(6, 3, WireColor::Purple);
    let mut updated = false;
    wire.update(&mut updated);
    wire.cell_mut(6, 3).send_power(20);
    let mut objects = vec![Object { object_type: ObjectType::Lamp, position: (2, 2), powered: false }];
    let mut walls_updated = false;
    update_objects(&mut objects, &mut water, &mut wire, &mut navigation, &mut walls_updated);
    assert!(!objects[0].powered);
    wire.update(&mut updated);
    update_objects(&mut objects, &mut water, &mut wire, &mut navigation, &mut walls_updated);
    assert!(objects[0].powered);
    assert!(!walls_updated);
}

#[test]
fn an_engine_without_power_slows_down() {
    let mut water = WaterGrid::new(50, 20);
    let mut wire = WireGrid::new(50, 20);
    let mut navigation = Navigation::default();
    let mut objects = vec![Object {
        object_type: ObjectType::Engine { target_speed: 100, speed: 100, progress: 0 },
        position: (2, 2),
        powered: false,
    }];
    let mut walls_updated = false;
    update_objects(&mut objects, &mut water, &mut wire, &mut navigation, &mut walls_updated);
    assert_eq!(objects[0].object_type, ObjectType::Engine { target_speed: 100, speed: 90, progress: 22 });
    assert_eq!(navigation.acceleration.0, 3);
}

#[test]
fn a_battery_feeds_its_output() {
    let mut water = WaterGrid::new(20, 10);
    let mut wire = WireGrid::new(20, 10);
    let mut navigation = Navigation::default();
    wire.make_wire(9, 6, WireColor::Brown);
    wire.make_wire(10, 6, WireColor::Brown);
    let mut updated = false;
    wire.update(&mut updated);
    let mut objects = vec![Object { object_type: ObjectType::Battery { charge: 10 }, position: (2, 2), powered: false }];
    let mut walls_updated = false;
    update_objects(&mut objects, &mut water, &mut wire, &mut navigation, &mut walls_updated);
    assert_eq!(objects[0].object_type, ObjectType::Battery { charge: 9 });
    assert_eq!(wire.cell(9, 6).receive_power(), Some(100));
}

#[test]
fn a_small_pump_moves_water() {
    let mut water = WaterGrid::new(20, 12);
    let mut wire = WireGrid::new(20, 12);
    let mut navigation = Navigation::default();
    let mut objects = vec![Object {
        object_type: ObjectType::SmallPump { target_speed: 0, speed: 100, progress: 0 },
        position: (2, 2),
        powered: false,
    }];
    let mut walls_updated = false;
    update_objects(&mut objects, &mut water, &mut wire, &mut navigation, &mut walls_updated);
    assert_eq!(objects[0].object_type, ObjectType::SmallPump { target_speed: 0, speed: 90, progress: 22 });
    assert_eq!(water.cell(9, 7).level(), 270);
}

#[test]
fn object_counters_stay_within_their_bounds() {
    let mut water = WaterGrid::new(60, 30);
    let mut wire = WireGrid::new(60, 30);
    let mut navigation = Navigation::default();
    let mut objects = vec![
        object(ObjectType::Battery { charge: 5400 }),
        object(ObjectType::NavController { active: true, progress: 39 }),
        object(ObjectType::JunctionBox { enabled: true, progress: 15 }),
        object(ObjectType::SmallPump { target_speed: i8::MIN, speed: -127, progress: 0 }),
        object(ObjectType::BundleInput { sub_bundle: 7 }),
        object(ObjectType::Door { state: DoorState::Opening, progress: 15 }),
    ];
    let kinds: Vec<_> = objects.iter().map(|o| std::mem::discriminant(&o.object_type)).collect();
    let mut walls_updated = false;
    for _ in 0..20 {
        update_objects(&mut objects, &mut water, &mut wire, &mut navigation, &mut walls_updated);
    }
    assert_eq!(objects.len(), 6);
    for (o, kind) in objects.iter().zip(&kinds) {
        assert_eq!(std::mem::discriminant(&o.object_type), *kind);
        assert_eq!(o.position, (2, 2));
        match o.object_type {
            ObjectType::Battery { charge } => assert!(charge <= 5400),
            ObjectType::NavController { progress, .. } => assert!(progress < 40),
            ObjectType::JunctionBox { progress, .. } => assert!(progress <= 15),
            ObjectType::SmallPump { speed, .. } => assert!(speed > i8::MIN),
            ObjectType::BundleInput { sub_bundle } => assert!(sub_bundle < 8),
            ObjectType::Door { progress, .. } => assert!(progress <= 15),
            _ => unreachable!(),
        }
    }
}

#[test]
fn a_pump_at_the_lowest_speed_slows_down_without_power() {
    let mut water = WaterGrid::new(20, 12);
    let mut wire = WireGrid::new(20, 12);
    let mut navigation = Navigation::default();
    let mut objects = vec![Object {
        object_type: ObjectType::SmallPump { target_speed: i8::MIN, speed: i8::MIN, progress: 0 },
        position: (2, 2),
        powered: false,
    }];
    let mut walls_updated = false;
    update_objects(&mut objects, &mut water, &mut wire, &mut navigation, &mut walls_updated);
    assert_eq!(objects[0].object_type, ObjectType::SmallPump { target_speed: i8::MIN, speed: -115, progress: 228 });
    assert_eq!(water.cell(9, 7).level(), 0);
}

#[test]
fn an_active_sonar_far_away_sets_a_truncated_target() {
    let mut water = WaterGrid::new(20, 20);
    let mut wire = WireGrid::new(20, 20);
    let mut navigation = Navigation::default();
    let mut objects = vec![Object {
        object_type: ObjectType::Sonar { active: true, navigation_target: Some((0x1_0000_0005, 7)) },
        position: (2, 2),
        powered: false,
    }];
    let mut walls_updated = false;
    update_objects(&mut objects, &mut water, &mut wire, &mut navigation, &mut walls_updated);
    assert!(!objects[0].powered);
    assert_eq!(navigation.target, (0, 0));
}
