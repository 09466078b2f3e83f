use cybersub::wires::{WireColor, WireGrid, WireValue};

#[test]
fn wire_ends_become_terminals() {
    let mut grid = WireGrid::new(10, 5);
    grid.make_wire(2, 2, WireColor::Purple);
    grid.make_wire(3, 2, WireColor::Purple);
    grid.make_wire(4, 2, WireColor::Purple);
    let mut updated = false;
    grid.update(&mut updated);
    assert!(grid.cell(2, 2).value(WireColor::Purple).is_terminal());
    assert!(!grid.cell(3, 2).value(WireColor::Purple).is_terminal());
    assert!(grid.cell(4, 2).value(WireColor::Purple).is_terminal());
    assert!(!grid.cell(2, 2).value(WireColor::Brown).connected());
}

#[test]
fn power_travels_along_a_wire() {
    let mut grid = WireGrid::new(10, 5);
    for x in 2..5 {
        grid.make_wire(x, 2, WireColor::Purple);
    }
    let mut updated = false;
    grid.update(&mut updated);
    grid.cell_mut(2, 2).send_power(200);
    assert_eq!(grid.cell(2, 2).receive_power(), Some(200));
    assert_eq!(grid.cell(4, 2).receive_power(), None);
    let mut updated = false;
    grid.update(&mut updated);
    assert!(updated);
    grid.update(&mut updated);
    assert_eq!(grid.cell(4, 2).receive_power(), Some(200));
    assert!(grid.cell(4, 2).minimum_power(150));
    assert!(!grid.cell(4, 2).minimum_power(201));
}

#[test]
fn logic_travels_along_a_wire() {
    let mut grid = WireGrid::new(10, 5);
    for x in 2..5 {
        grid.make_wire(x, 2, WireColor::Blue);
    }
    let mut updated = false;
    grid.update(&mut updated);
    grid.cell_mut(4, 2).send_logic(-5);
    grid.update(&mut updated);
    grid.update(&mut updated);
    assert_eq!(grid.cell(2, 2).receive_logic(), Some(-5));
}

#[test]
fn a_wire_with_three_neighbours_is_cut() {
    let mut grid = WireGrid::new(10, 6);
    grid.make_wire(3, 2, WireColor::Green);
    grid.make_wire(2, 2, WireColor::Green);
    grid.make_wire(4, 2, WireColor::Green);
    grid.make_wire(3, 3, WireColor::Green);
    let mut updated = false;
    grid.update(&mut updated);
    assert_eq!(*grid.cell(3, 2).value(WireColor::Green), WireValue::NotConnected);
}

#[test]
fn decay_weakens_and_ends_signals() {
    let v = WireValue::Power { value: 9, terminal: true, signal: 10 };
    assert_eq!(v.decay(3), WireValue::Power { value: 9, terminal: true, signal: 7 });
    assert_eq!(v.decay(10), WireValue::NoSignal { terminal: true });
    assert_eq!(v.decay(3).decay(4), v.decay(7));
    assert_eq!(WireValue::NotConnected.decay(5), WireValue::NotConnected);
    assert_eq!(WireValue::Bundle { bundle_id: 2 }.decay(5), WireValue::Bundle { bundle_id: 2 });
}

#[test]
fn set_logic_only_drives_wire_ends() {
    let mut end = WireValue::NoSignal { terminal: true };
    end.set_logic(3);
    assert_eq!(end, WireValue::Logic { value: 3, terminal: true, signal: 256 });
    assert_eq!(end.get_logic(), Some(3));
    assert_eq!(end.get_power(), None);
    let mut middle = WireValue::NoSignal { terminal: false };
    middle.set_power(3);
    assert_eq!(middle, WireValue::NoSignal { terminal: false });
    let mut none = WireValue::NotConnected;
    none.set_terminal(true);
    assert_eq!(none, WireValue::NotConnected);
}

#[test]
fn send_power_drives_only_the_first_wire_end() {
    let mut grid = WireGrid::new(10, 5);
    grid.make_wire(2, 2, WireColor::Purple);
    grid.make_wire(2, 2, WireColor::Brown);
    grid.cell_mut(2, 2).value_mut(WireColor::Purple).set_terminal(true);
    grid.cell_mut(2, 2).value_mut(WireColor::Brown).set_terminal(true);
    grid.cell_mut(2, 2).send_power(50);
    assert_eq!(grid.cell(2, 2).value(WireColor::Purple).get_power(), Some(50));
    assert_eq!(grid.cell(2, 2).value(WireColor::Brown).get_power(), None);
    grid.cell_mut(2, 2).send_logic(7);
    assert_eq!(grid.cell(2, 2).value(WireColor::Purple).get_logic(), Some(7));
    assert_eq!(grid.cell(2, 2).value(WireColor::Brown).get_logic(), Some(7));
}

#[test]
fn wire_points_keep_the_corners() {
    let mut grid = WireGrid::new(12, 8);
    for x in 2..6 {
        grid.make_wire(x, 2, WireColor::Brown);
    }
    for y in 3..5 {
        grid.make_wire(5, y, WireColor::Brown);
    }
    let points = grid.wire_points();
    assert_eq!(points.len(), 1);
    assert_eq!(points[0].0, WireColor::Brown);
    let mut corners = points[0].1.clone();
    corners.sort();
    assert_eq!(corners, vec![(2, 2), (5, 2), (5, 4)]);

    let rebuilt = WireGrid::from_wire_points(12, 8, &points);
    for x in 2..6 {
        assert!(rebuilt.cell(x, 2).value(WireColor::Brown).connected());
    }
    assert!(rebuilt.cell(5, 4).value(WireColor::Brown).connected());
    assert!(!rebuilt.cell(3, 3).value(WireColor::Brown).connected());
}

#[test]
fn clearing_a_wire_disconnects_it() {
    let mut grid = WireGrid::new(10, 5);
    grid.make_wire(2, 2, WireColor::Purple);
    grid.make_wire(3, 2, WireColor::Purple);
    grid.clear_wire(3, 2, WireColor::Purple);
    assert!(!grid.cell(3, 2).value(WireColor::Purple).connected());
    assert_eq!(grid.has_neighbours(WireColor::Purple, 2, 2), [false, false, false, false]);
    assert_eq!(grid.has_neighbours(WireColor::Purple, 3, 2), [false, false, false, true]);
}

#[test]
fn bundles_join_and_move_their_signals() {
    let mut grid = WireGrid::new(10, 6);
    grid.make_wire(2, 2, WireColor::Bundle);
    grid.make_wire(3, 2, WireColor::Bundle);
    let id = grid.cell(2, 2).bundle_id().expect("bundle made");
    assert_eq!(grid.cell(3, 2).bundle_id(), Some(id));
    assert!(grid.wire_bundle_input_mut(id).is_some());
    assert!(grid.wire_bundle_output_mut(id + 1).is_none());
    grid.wire_bundle_input_mut(id).unwrap().bundled_cells[0][1].power = Some(9);
    grid.update_bundles();
    assert_eq!(grid.wire_bundle_output_mut(id).unwrap().bundled_cells[0][1].power, Some(9));
    assert_eq!(grid.wire_bundle_input_mut(id).unwrap().bundled_cells[0][1].power, None);
}

#[test]
fn wire_colors_round_trip_through_indices() {
    for i in 0..5 {
        assert_eq!(WireColor::from_index(i).index(), i);
    }
}

#[test]
fn clone_from_copies_the_grid() {
    let mut grid = WireGrid::new(10, 5);
    grid.make_wire(2, 2, WireColor::Purple);
    let copy = WireGrid::clone_from(&grid);
    assert_eq!(copy.size(), (10, 5));
    assert!(copy.cell(2, 2).value(WireColor::Purple).connected());
}

fn grid_with(cells: &[(usize, usize)], color: WireColor) -> WireGrid {
    let mut grid = WireGrid::new(8, 6);
    for &(x, y) in cells {
        grid.make_wire(x, y, color);
    }
    grid
}

#[test]
fn wire_sets_follow_a_wire_from_end_to_end() {
    let grid = grid_with(&[(2, 2), (3, 2), (4, 2), (2, 3)], WireColor::Purple);
    // The row is turned round so that the cell below its left end extends it.
    assert_eq!(grid.wire_sets(), vec![(WireColor::Purple, vec![(4, 2), (3, 2), (2, 2), (2, 3)])]);
}

#[test]
fn wire_sets_split_forks() {
    let grid = grid_with(&[(1, 1), (2, 1), (3, 1), (2, 2)], WireColor::Blue);
    assert_eq!(
        grid.wire_sets(),
        vec![
            (WireColor::Blue, vec![(3, 1), (2, 1), (1, 1)]),
            (WireColor::Blue, vec![(2, 2)]),
        ]
    );
}

#[test]
fn wire_sets_merge_meeting_wires() {
    let grid = grid_with(&[(3, 1), (1, 2), (2, 2), (3, 2)], WireColor::Green);
    assert_eq!(grid.wire_sets(), vec![(WireColor::Green, vec![(1, 2), (2, 2), (3, 2), (3, 1)])]);
}

#[test]
fn wire_sets_drop_closed_loops() {
    let square = [(1, 1), (2, 1), (1, 2), (2, 2)];
    assert!(grid_with(&square, WireColor::Purple).wire_sets().is_empty());

    // A cell that continues a dropped loop starts a set of its own.
    let mut grid = grid_with(&square, WireColor::Purple);
    grid.make_wire(3, 2, WireColor::Purple);
    assert_eq!(grid.wire_sets(), vec![(WireColor::Purple, vec![(3, 2)])]);
}

#[test]
fn wire_update_does_not_depend_on_laying_order() {
    let cells = [(2, 2), (3, 2), (4, 2), (4, 3), (5, 3)];
    let mut forward = WireGrid::new(8, 6);
    for &(x, y) in cells.iter() {
        forward.make_wire(x, y, WireColor::Brown);
    }
    let mut backward = WireGrid::new(8, 6);
    for &(x, y) in cells.iter().rev() {
        backward.make_wire(x, y, WireColor::Brown);
    }
    for _ in 0..3 {
        let mut a = false;
        let mut b = false;
        forward.update(&mut a);
        backward.update(&mut b);
        assert_eq!(a, b);
        for y in 0..6 {
            for x in 0..8 {
                assert_eq!(forward.cell(x, y).value(WireColor::Brown), backward.cell(x, y).value(WireColor::Brown));
            }
        }
    }
}
