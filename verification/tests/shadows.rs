use cybersub::shadows::{find_shadow_edges, has_edge, neighbour, Direction, Edge};
use cybersub::water::WaterGrid;

fn open_grid(width: usize, height: usize) -> WaterGrid {
    let mut grid = WaterGrid::new(width, height);
    for y in 0..height {
        for x in 0..width {
            grid.cell_mut(x, y).make_inside();
        }
    }
    grid
}

fn edge(edge_type: Direction, start_cell: (usize, usize), end_cell: (usize, usize)) -> Edge {
    Edge {
        edge_type,
        start_cell,
        end_cell,
    }
}

#[test]
fn open_grid_has_no_edges() {
    let grid = open_grid(4, 4);
    assert!(find_shadow_edges(&grid).is_empty());
}

#[test]
fn runs_of_wall_sides_become_single_edges() {
    let mut grid = open_grid(5, 5);
    grid.cell_mut(1, 1).make_wall();
    grid.cell_mut(2, 1).make_wall();
    grid.cell_mut(0, 4).make_wall();

    let edges = find_shadow_edges(&grid);
    assert_eq!(
        edges,
        vec![
            edge(Direction::Top, (1, 1), (2, 1)),
            edge(Direction::Bottom, (1, 1), (2, 1)),
            edge(Direction::Left, (1, 1), (1, 1)),
            edge(Direction::Right, (2, 1), (2, 1)),
            edge(Direction::Top, (0, 4), (0, 4)),
            edge(Direction::Right, (0, 4), (0, 4)),
        ]
    );

    assert_eq!(edges[0].line_corners(), ((1, 1), (3, 1)));
    assert_eq!(edges[1].line_corners(), ((1, 2), (3, 2)));
    assert_eq!(edges[2].line_corners(), ((1, 1), (1, 2)));
    assert_eq!(edges[3].line_corners(), ((3, 1), (3, 2)));
}

#[test]
fn vertical_runs_extend_down() {
    let mut grid = open_grid(3, 4);
    for y in 0..3 {
        grid.cell_mut(1, y).make_wall();
    }
    let edges = find_shadow_edges(&grid);
    assert_eq!(
        edges,
        vec![
            edge(Direction::Right, (1, 0), (1, 2)),
            edge(Direction::Left, (1, 0), (1, 2)),
            edge(Direction::Bottom, (1, 2), (1, 2)),
        ]
    );
}

#[test]
fn sides_at_the_border_and_between_walls_cast_nothing() {
    let mut grid = open_grid(3, 3);
    grid.cell_mut(0, 0).make_wall();
    grid.cell_mut(1, 0).make_wall();
    assert!(!has_edge(&grid, 0, 0, Direction::Top));
    assert!(!has_edge(&grid, 0, 0, Direction::Left));
    assert!(!has_edge(&grid, 0, 0, Direction::Right));
    assert!(has_edge(&grid, 0, 0, Direction::Bottom));
    assert!(!has_edge(&grid, 2, 2, Direction::Top));
    assert_eq!(neighbour(&grid, 0, 0, Direction::Top), None);
    assert_eq!(neighbour(&grid, 0, 0, Direction::Right), Some((1, 0)));
    assert_eq!(neighbour(&grid, 2, 2, Direction::Bottom), None);
    assert_eq!(neighbour(&grid, 2, 2, Direction::Left), Some((1, 2)));
}
