use cybersub::game::{
    update_game, update_state_from_commands, CellCommand, Command, GameState, SubmarineTemplate,
    SubmarineUpdatedEvent, UpdateEvent, UpdateSettings,
};
use cybersub::objects::{DoorState, Object, ObjectType};
use cybersub::rocks::RockGrid;
use cybersub::saveload::CellTemplate;
use cybersub::wires::WireColor;

fn template() -> SubmarineTemplate {
    SubmarineTemplate {
        size: (40, 20),
        water_cells: vec![CellTemplate::Inside; 800],
        background_pixels: vec![1, 2, 3],
        objects: vec![Object {
            object_type: ObjectType::Door { state: DoorState::Closing, progress: 0 },
            position: (1, 1),
            powered: false,
        }],
        wire_points: vec![(WireColor::Brown, vec![(2, 2), (5, 2)])],
    }
}

fn empty_game(settings: UpdateSettings) -> GameState {
    GameState {
        update_settings: settings,
        rock_grid: RockGrid::new(40, 40),
        submarines: Vec::new(),
        collisions: Vec::new(),
    }
}

fn quiet() -> UpdateSettings {
    UpdateSettings {
        update_water: false,
        enable_gravity: false,
        enable_inertia: false,
        update_wires: false,
        update_sonar: false,
        update_objects: false,
        update_position: false,
        update_collision: false,
    }
}

fn sub_event(id: usize, event: SubmarineUpdatedEvent) -> UpdateEvent {
    UpdateEvent::Submarine { submarine_id: id, submarine_event: event }
}

#[test]
fn a_created_submarine_rests_where_it_was_placed() {
    let mut game = empty_game(quiet());
    let mut events = Vec::new();
    let commands = vec![Command::CreateSubmarine { submarine_template: Box::new(template()), rock_position: (5, 7) }];
    update_state_from_commands(commands, &mut game, &mut events);
    assert_eq!(events, vec![UpdateEvent::SubmarineCreated]);
    assert_eq!(game.submarines.len(), 1);
    let sub = &game.submarines[0];
    assert_eq!(sub.navigation.position, (5, 7));
    assert_eq!(sub.navigation.target, (5, 7));
    assert_eq!(sub.water_grid.size(), (40, 20));
    assert_eq!(sub.background_pixels, vec![1, 2, 3]);
    assert_eq!(sub.objects.len(), 1);
    assert!(sub.wire_grid.cell(3, 2).value(WireColor::Brown).connected());
    assert!(!sub.wire_grid.cell(3, 3).value(WireColor::Brown).connected());
}

#[test]
fn cell_commands_edit_the_submarine_and_report() {
    let mut game = empty_game(quiet());
    let mut events = Vec::new();
    let commands = vec![
        Command::CreateSubmarine { submarine_template: Box::new(template()), rock_position: (0, 0) },
        Command::Cell { submarine_id: 0, cell: (3, 3), cell_command: CellCommand::EditWalls { add: true } },
        Command::Cell { submarine_id: 0, cell: (4, 4), cell_command: CellCommand::EditWater { add: true } },
        Command::Cell {
            submarine_id: 0,
            cell: (6, 6),
            cell_command: CellCommand::EditWires { add: true, color: WireColor::Blue },
        },
        Command::Cell {
            submarine_id: 0,
            cell: (6, 6),
            cell_command: CellCommand::AddObject { object_type: ObjectType::Lamp },
        },
    ];
    update_state_from_commands(commands, &mut game, &mut events);
    assert_eq!(
        events,
        vec![
            UpdateEvent::SubmarineCreated,
            sub_event(0, SubmarineUpdatedEvent::Walls),
            sub_event(0, SubmarineUpdatedEvent::Walls),
            sub_event(0, SubmarineUpdatedEvent::Wires),
        ]
    );
    let sub = &game.submarines[0];
    assert!(sub.water_grid.cell(3, 3).is_wall());
    assert_eq!(sub.water_grid.cell(4, 4).level(), 16384);
    assert!(sub.wire_grid.cell(6, 6).value(WireColor::Blue).connected());
    assert_eq!(sub.objects.len(), 2);
    assert_eq!(sub.objects[1].position, (6, 6));
    assert_eq!(sub.objects[1].object_type, ObjectType::Lamp);
    assert!(!sub.objects[1].powered);

    let mut events = Vec::new();
    let commands = vec![
        Command::Cell { submarine_id: 0, cell: (3, 3), cell_command: CellCommand::EditWalls { add: false } },
        Command::Cell { submarine_id: 0, cell: (4, 4), cell_command: CellCommand::EditWater { add: false } },
        Command::Cell {
            submarine_id: 0,
            cell: (6, 6),
            cell_command: CellCommand::EditWires { add: false, color: WireColor::Blue },
        },
    ];
    update_state_from_commands(commands, &mut game, &mut events);
    assert_eq!(events.len(), 3);
    let sub = &game.submarines[0];
    assert!(sub.water_grid.cell(3, 3).is_inside());
    assert_eq!(sub.water_grid.cell(4, 4).level(), 0);
    assert!(!sub.wire_grid.cell(6, 6).value(WireColor::Blue).connected());
}

#[test]
fn commands_for_missing_things_are_ignored() {
    let mut game = empty_game(quiet());
    let mut events = Vec::new();
    let commands = vec![
        Command::CreateSubmarine { submarine_template: Box::new(template()), rock_position: (0, 0) },
        Command::Interact { submarine_id: 1, object_id: 0 },
        Command::Interact { submarine_id: 0, object_id: 5 },
        Command::Cell { submarine_id: 0, cell: (40, 3), cell_command: CellCommand::EditWalls { add: true } },
        Command::Cell { submarine_id: 2, cell: (2, 3), cell_command: CellCommand::EditWalls { add: true } },
        Command::Cell {
            submarine_id: 0,
            cell: (0, 3),
            cell_command: CellCommand::EditWires { add: true, color: WireColor::Bundle },
        },
        Command::ClearWater { submarine_id: 4 },
        Command::SetSonarTarget { submarine_id: 0, object_id: 0, rock_position: (3, 3) },
    ];
    update_state_from_commands(commands, &mut game, &mut events);
    assert_eq!(events, vec![UpdateEvent::SubmarineCreated]);
    let sub = &game.submarines[0];
    assert_eq!(sub.objects[0].object_type, ObjectType::Door { state: DoorState::Closing, progress: 0 });
    assert!(sub.water_grid.cell(2, 3).is_inside());
    assert!(!sub.wire_grid.cell(0, 3).value(WireColor::Bundle).connected());
}

#[test]
fn interacting_and_aiming_change_objects() {
    let mut game = empty_game(quiet());
    let mut events = Vec::new();
    let mut t = template();
    t.objects.push(Object {
        object_type: ObjectType::Sonar { active: false, navigation_target: None },
        position: (2, 2),
        powered: false,
    });
    let commands = vec![
        Command::CreateSubmarine { submarine_template: Box::new(t), rock_position: (0, 0) },
        Command::Interact { submarine_id: 0, object_id: 0 },
        Command::SetSonarTarget { submarine_id: 0, object_id: 1, rock_position: (30, 40) },
        Command::ChangeUpdateSettings { update_settings: UpdateSettings::default() },
    ];
    update_state_from_commands(commands, &mut game, &mut events);
    let sub = &game.submarines[0];
    assert_eq!(sub.objects[0].object_type, ObjectType::Door { state: DoorState::Opening, progress: 0 });
    assert_eq!(sub.objects[1].object_type, ObjectType::Sonar { active: false, navigation_target: Some((30, 40)) });
    assert_eq!(game.update_settings, UpdateSettings::default());
}

fn ticked_game() -> (GameState, Vec<UpdateEvent>) {
    let mut game = empty_game(UpdateSettings::default());
    let mut events = Vec::new();
    let commands = vec![
        Command::CreateSubmarine { submarine_template: Box::new(template()), rock_position: (100, 100) },
        Command::Interact { submarine_id: 0, object_id: 0 },
    ];
    update_game(commands, &mut game, &mut events);
    for _ in 0..5 {
        update_game(Vec::new(), &mut game, &mut events);
    }
    (game, events)
}

#[test]
fn the_tick_is_deterministic() {
    let (game1, events1) = ticked_game();
    let (game2, events2) = ticked_game();
    assert_eq!(events1, events2);
    assert_eq!(game1.submarines.len(), 1);
    let (s1, s2) = (&game1.submarines[0], &game2.submarines[0]);
    assert_eq!(s1.navigation, s2.navigation);
    assert_eq!(s1.objects, s2.objects);
    assert_eq!(s1.water_grid.total_water(), s2.water_grid.total_water());
    for y in 0..20 {
        for x in 0..40 {
            assert_eq!(s1.water_grid.cell(x, y).level(), s2.water_grid.cell(x, y).level());
        }
    }
    assert_eq!(game1.collisions, game2.collisions);
}

#[test]
fn a_tick_moves_objects_along() {
    let (game, events) = ticked_game();
    assert_eq!(events[0], UpdateEvent::SubmarineCreated);
    let sub = &game.submarines[0];
    assert!(matches!(sub.objects[0].object_type, ObjectType::Door { state: DoorState::Opening, .. }));
}

#[test]
fn a_quiet_tick_only_clears_collisions() {
    let mut game = empty_game(quiet());
    let mut events = Vec::new();
    let commands = vec![Command::CreateSubmarine { submarine_template: Box::new(template()), rock_position: (9, 9) }];
    update_game(commands, &mut game, &mut events);
    update_game(Vec::new(), &mut game, &mut events);
    assert_eq!(events, vec![UpdateEvent::SubmarineCreated]);
    let sub = &game.submarines[0];
    assert_eq!(sub.navigation.position, (9, 9));
    assert_eq!(sub.objects[0].object_type, ObjectType::Door { state: DoorState::Closing, progress: 0 });
    assert!(game.collisions.is_empty());
}

#[test]
fn commands_for_a_missing_submarine_change_nothing() {
    let mut game = empty_game(quiet());
    let mut events = Vec::new();
    let commands = vec![
        Command::Interact { submarine_id: 0, object_id: 0 },
        Command::Cell { submarine_id: 0, cell: (1, 1), cell_command: CellCommand::EditWalls { add: true } },
        Command::ClearWater { submarine_id: 0 },
        Command::SetSonarTarget { submarine_id: 0, object_id: 0, rock_position: (1, 1) },
    ];
    update_state_from_commands(commands, &mut game, &mut events);
    assert!(events.is_empty());
    assert!(game.submarines.is_empty());
    assert_eq!(game.update_settings, quiet());
}
