use cybersub::saveload::CellTemplate::{Glass, Inside, Sea, Wall, Water};
use cybersub::water::{WaterCell, WaterGrid, FULL_LEVEL, PUMP_LIMIT};

#[test]
fn new_grid_has_floor_side_walls_and_bulkhead() {
    let grid = WaterGrid::new(10, 10);
    assert_eq!(grid.size(), (10, 10));
    for x in 1..9 {
        assert!(grid.cell(x, 8).is_wall());
    }
    for y in 5..9 {
        assert!(grid.cell(1, y).is_wall());
        assert!(grid.cell(8, y).is_wall());
        assert!(grid.cell(7, y).is_wall());
    }
    assert!(grid.cell(3, 3).is_inside());
    assert!(grid.cell(1, 4).is_inside());
    assert!(grid.cell(0, 9).is_inside());
    assert_eq!(grid.total_water(), 0);
    assert!(grid.edges().is_empty());
}

#[test]
fn one_update_spreads_overpressure_and_conserves_water() {
    let mut grid = WaterGrid::new(10, 10);
    grid.cell_mut(3, 3).fill();
    assert_eq!(grid.cell(3, 3).level(), 16384);
    grid.update(false, false);
    assert_eq!(grid.cell(3, 3).level(), FULL_LEVEL);
    assert_eq!(grid.cell(3, 4).level(), 3840);
    assert_eq!(grid.cell(4, 3).level(), 3840);
    assert_eq!(grid.cell(3, 2).level(), 3840);
    assert_eq!(grid.cell(2, 3).level(), 3840);
    assert_eq!(grid.total_water(), 16384);
    assert!(grid.cell(0, 5).is_sea());
    assert!(grid.cell(9, 0).is_sea());
    assert!(grid.cell(5, 9).is_sea());
}

#[test]
fn gravity_pulls_water_down() {
    let mut grid = WaterGrid::new(10, 10);
    grid.cell_mut(3, 3).fill();
    grid.update(true, true);
    assert!(grid.cell(3, 3).velocity().1 > 0);
    assert_eq!(grid.cell(3, 3).velocity().0, 0);
}

#[test]
fn walls_reflect_what_flows_into_them() {
    let mut grid = WaterGrid::new(10, 10);
    grid.cell_mut(3, 7).fill();
    grid.update(false, false);
    assert!(grid.cell(3, 8).is_wall());
    assert_eq!(grid.total_water(), 16384);
    grid.update(false, false);
    assert_eq!(grid.cell(3, 7).level() > FULL_LEVEL, true);
}

#[test]
fn clear_empties_every_inside_cell() {
    let mut grid = WaterGrid::new(10, 10);
    grid.cell_mut(3, 3).fill();
    grid.update(true, true);
    grid.clear();
    for y in 0..10 {
        for x in 0..10 {
            let cell = grid.cell(x, y);
            if cell.is_inside() {
                assert_eq!(cell.level(), 0);
                assert_eq!(cell.velocity(), (0, 0));
            }
        }
    }
    assert!(grid.cell(3, 8).is_wall());
    grid.clear();
    assert_eq!(grid.cell(3, 3).level(), 0);
}

#[test]
fn pumps_stop_at_the_limit_and_at_empty() {
    let mut cell = WaterCell::default_cell();
    cell.add_level(100);
    assert_eq!(cell.level(), 100);
    cell.add_level(-100);
    assert_eq!(cell.level(), 0);
    cell.add_level(-5);
    assert_eq!(cell.level(), 0);
    cell.add_level(10_000);
    assert_eq!(cell.level(), PUMP_LIMIT);
    cell.add_level(i32::MAX);
    assert_eq!(cell.level(), PUMP_LIMIT);
    let mut wall = WaterCell::default_cell();
    wall.make_wall();
    wall.add_level(100);
    assert_eq!(wall.level(), 0);
    assert!(wall.is_wall());
}

#[test]
fn cell_kinds_change() {
    let mut cell = WaterCell::default_cell();
    assert!(cell.is_inside());
    cell.make_sea();
    assert!(cell.is_sea());
    assert_eq!(cell.level(), 8192);
    cell.make_wall();
    assert!(cell.is_wall());
    cell.clear_wall();
    assert!(cell.is_inside());
    assert_eq!(cell.level(), 0);
    cell.clear_wall();
    assert!(cell.is_inside());
    cell.fill();
    assert_eq!(cell.level(), 16384);
    cell.make_inside();
    assert_eq!(cell.level(), 0);
}

#[test]
fn replanning_keeps_level_and_velocity() {
    let mut cell = WaterCell::default_cell();
    cell.fill();
    cell.replan();
    assert_eq!(cell.level(), 16384);
    assert_eq!(cell.velocity(), (0, 0));
}

#[test]
fn edges_are_walls_touching_the_sea() {
    let mut grid = WaterGrid::new(10, 10);
    grid.update(false, false);
    grid.update_edges();
    let edges = grid.edges().clone();
    assert!(!edges.is_empty());
    for &(x, y) in &edges {
        assert!(grid.cell(x, y).is_wall());
    }
    assert!(edges.contains(&(4, 8)));
    assert!(edges.contains(&(1, 6)));
    assert!(!edges.contains(&(7, 6)));
}

#[test]
fn grids_tell_whether_an_update_fits() {
    let mut grid = WaterGrid::new(10, 10);
    assert!(grid.fits_update());
    grid.cell_mut(3, 3).fill();
    assert!(grid.fits_update());
    grid.update(true, true);
    assert!(grid.fits_update());
    let tiny = WaterGrid::new(1, 1);
    assert!(tiny.fits_update());
}

#[test]
fn grid_from_templates_sets_each_cell_and_finds_edges() {
    let templates = vec![Sea, Sea, Sea, Sea, Wall, Inside, Water, Glass, Inside];
    let grid = WaterGrid::from_cells(3, 3, &templates);
    assert_eq!(grid.size(), (3, 3));
    assert!(grid.cell(0, 0).is_sea());
    assert!(grid.cell(0, 1).is_sea());
    assert!(grid.cell(1, 1).is_wall());
    assert!(grid.cell(1, 2).is_wall());
    assert!(grid.cell(2, 1).is_inside());
    assert_eq!(grid.cell(2, 1).level(), 0);
    assert!(grid.cell(0, 2).is_inside());
    assert_eq!(grid.cell(0, 2).level(), 16384);
    assert_eq!(grid.total_water(), 0);
    assert_eq!(grid.total_walls(), 2);
    assert_eq!(grid.total_inside(), 3);
    assert_eq!(grid.edges(), &vec![(1, 1)]);
}

#[test]
fn sealed_hull_keeps_its_water_through_an_update() {
    // Sea around a ring of walls that encloses one inside cell.
    let mut grid = WaterGrid::new(7, 7);
    for y in 0..7 {
        for x in 0..7 {
            let ring = x.min(y).min(6 - x).min(6 - y);
            let cell = grid.cell_mut(x, y);
            match ring {
                0 | 1 => cell.make_sea(),
                2 => cell.make_wall(),
                _ => {
                    cell.make_inside();
                    cell.fill();
                }
            }
        }
    }
    assert!(grid.fits_update());
    grid.update(false, false);
    assert_eq!(grid.total_water(), 16384);
    assert!(grid.cell(3, 3).level() < 16384);
    assert!(grid.cell(3, 3).level() > 0);
    // Nothing moves, so every plan is exact and the total stays.
    for _ in 0..5 {
        assert!(grid.fits_update());
        grid.update(false, false);
        assert_eq!(grid.total_water(), 16384);
    }
}
