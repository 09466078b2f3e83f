use cybersub::collisions::{update_rock_collisions, update_submarine_collisions};
use cybersub::rocks::{RockGrid, RockType};
use cybersub::saveload::{
    cell_template_from_pixel, load_rocks_from_pixels, load_water_cells_from_png, rock_type_from_block,
    save_water_to_png, templates_from_row, water_pixels, CellTemplate,
};
use cybersub::sonar::{distance_squared, find_visible_edge_cells, is_neighbour, line_cells, sort, Sonar};
use cybersub::state::Navigation;
use cybersub::water::WaterGrid;

#[test]
fn rock_cells_have_shapes() {
    let mut grid = RockGrid::new(3, 2);
    assert_eq!(grid.size(), (3, 2));
    assert_eq!(grid.cell(2, 1).rock_type(), RockType::Empty);
    assert!(!grid.cell(2, 1).is_wall());
    grid.cell_mut(2, 1).set_type(RockType::WallUpperLeft);
    assert!(grid.cell(2, 1).is_wall());
    grid.set_cell_type(0, 0, RockType::WallFilled);
    assert_eq!(grid.cell(0, 0).rock_type(), RockType::WallFilled);
    assert_eq!(grid.cell(1, 0).rock_type(), RockType::Empty);
}

#[test]
fn lines_follow_bresenham() {
    assert_eq!(line_cells(0, 0, 3, 1), vec![(0, 0), (1, 0), (2, 1), (3, 1)]);
    assert_eq!(line_cells(2, 2, 2, 2), vec![(2, 2)]);
    assert_eq!(line_cells(5, 1, 1, 4), vec![(5, 1), (4, 2), (3, 3), (2, 3), (1, 4)]);
    assert_eq!(line_cells(0, 0, 1, 4), vec![(0, 0), (0, 1), (1, 2), (1, 3), (1, 4)]);
    assert_eq!(line_cells(3, 0, 0, 3), vec![(3, 0), (2, 1), (1, 2), (0, 3)]);
}

#[test]
fn distances_and_blocks() {
    assert_eq!(distance_squared(1, 1, 4, 5), 25);
    assert_eq!(distance_squared(4, 5, 1, 1), 25);
    assert_eq!(sort(5, 3), (3, 5));
    assert_eq!(sort(3, 5), (3, 5));
    assert!(is_neighbour(4, 4, 7, 7));
    assert!(!is_neighbour(3, 3, 4, 4));
}

#[test]
fn the_sonar_sees_unblocked_edges_in_range() {
    let mut rocks = RockGrid::new(20, 20);
    let mut edges = vec![false; 400];
    // An edge cell in plain view.
    edges[10 * 20 + 15] = true;
    rocks.set_cell_type(15, 10, RockType::WallFilled);
    // An edge cell behind a wall.
    edges[2 * 20 + 10] = true;
    rocks.set_cell_type(10, 2, RockType::WallFilled);
    rocks.set_cell_type(10, 6, RockType::WallFilled);
    let mut sonar = Sonar::default();
    find_visible_edge_cells(&mut sonar, (10, 10), &rocks, &edges);
    assert_eq!(sonar.visible_edge_cells(), &vec![(-5, 0)]);
    assert_eq!(sonar.pulse, 0);
}

#[test]
fn pixels_name_cell_templates() {
    assert_eq!(cell_template_from_pixel(0, 0, 255, 255), Some(CellTemplate::Sea));
    assert_eq!(cell_template_from_pixel(0, 255, 255, 255), Some(CellTemplate::Water));
    assert_eq!(cell_template_from_pixel(255, 255, 255, 255), Some(CellTemplate::Wall));
    assert_eq!(cell_template_from_pixel(255, 0, 255, 255), Some(CellTemplate::Glass));
    assert_eq!(cell_template_from_pixel(0, 0, 0, 0), Some(CellTemplate::Inside));
    assert_eq!(cell_template_from_pixel(1, 2, 3, 4), None);
}

#[test]
fn rows_of_pixels_become_templates_or_errors() {
    assert_eq!(
        templates_from_row(&[0, 0, 0, 0, 255, 255, 255, 255], 2),
        Ok(vec![CellTemplate::Inside, CellTemplate::Wall])
    );
    assert_eq!(
        templates_from_row(&[0, 0, 0, 0, 1, 2, 3, 4], 2),
        Err("Unknown color code 1/2/3/4; expected blue, white, or black-transparent".to_string())
    );
    assert_eq!(
        templates_from_row(&[0, 0, 0, 0, 255, 255], 2),
        Err("Expected row size to equal PNG width".to_string())
    );
    assert_eq!(templates_from_row(&[], 0), Ok(vec![]));
}

#[test]
fn blocks_of_pixels_become_rock_shapes() {
    assert_eq!(rock_type_from_block([false, false, false, false]), RockType::Empty);
    assert_eq!(rock_type_from_block([true, true, true, true]), RockType::WallFilled);
    assert_eq!(rock_type_from_block([true, false, true, true]), RockType::WallLowerLeft);
    assert_eq!(rock_type_from_block([false, false, false, true]), RockType::WallLowerRight);
    assert_eq!(rock_type_from_block([true, false, false, false]), RockType::WallUpperLeft);
    assert_eq!(rock_type_from_block([false, true, false, false]), RockType::WallUpperRight);
    assert_eq!(rock_type_from_block([false, true, true, false]), RockType::WallFilled);
}

#[test]
fn rocks_load_from_an_image_twice_their_size() {
    let black = [0u8, 0, 0, 255];
    let white = [255u8, 255, 255, 255];
    // A 5x2 image: two cells, the fifth column is ignored.
    let rows = [
        [black, black, black, white, black],
        [black, black, white, white, white],
    ];
    let mut pixels = Vec::new();
    for row in rows.iter() {
        for pixel in row.iter() {
            pixels.extend_from_slice(pixel);
        }
    }
    let grid = load_rocks_from_pixels(5, 2, &pixels);
    assert_eq!(grid.size(), (2, 1));
    assert_eq!(grid.cell(0, 0).rock_type(), RockType::WallFilled);
    assert_eq!(grid.cell(1, 0).rock_type(), RockType::WallUpperLeft);
}

#[test]
fn water_grids_save_as_png_and_load_back_as_templates() {
    let mut grid = WaterGrid::new(10, 10);
    grid.cell_mut(3, 3).fill();
    let pixels = water_pixels(&grid);
    assert_eq!(pixels.len(), 400);
    assert_eq!(&pixels[(8 * 10 + 3) * 4..(8 * 10 + 3) * 4 + 4], &[255, 255, 255, 255]);
    assert_eq!(&pixels[(3 * 10 + 3) * 4..(3 * 10 + 3) * 4 + 4], &[0, 0, 255, 255]);
    assert_eq!(&pixels[0..4], &[0, 0, 0, 0]);

    let bytes = save_water_to_png(&grid).expect("encodes");
    assert_eq!(&bytes[0..8], &[137, 80, 78, 71, 13, 10, 26, 10]);
    let (width, height, cells) = load_water_cells_from_png(&bytes).expect("decodes");
    assert_eq!((width, height), (10, 10));
    assert_eq!(cells.len(), 100);
    assert_eq!(cells[8 * 10 + 3], CellTemplate::Wall);
    assert_eq!(cells[3 * 10 + 3], CellTemplate::Sea);
    assert_eq!(cells[0], CellTemplate::Inside);
}

#[test]
fn bad_png_bytes_are_refused() {
    let err = load_water_cells_from_png(&[1, 2, 3]).unwrap_err();
    assert!(err.starts_with("Could not read PNG header"));
}

#[test]
fn hull_edges_collide_with_solid_rock() {
    let mut water = WaterGrid::new(10, 10);
    water.update(false, false);
    water.update_edges();
    let mut rocks = RockGrid::new(2, 2);
    rocks.set_cell_type(0, 0, RockType::WallFilled);
    let navigation = Navigation::default();
    let mut collisions = Vec::new();
    let mut sub_collisions = Vec::new();
    update_rock_collisions(&water, &rocks, &navigation, &mut collisions, &mut sub_collisions);
    assert_eq!(sub_collisions, water.edges().clone());
    assert_eq!(collisions.len(), water.edges().len());
    assert!(collisions.iter().all(|&c| c == (0, 0)));

    let mut empty_rocks = RockGrid::new(2, 2);
    empty_rocks.set_cell_type(1, 1, RockType::WallLowerLeft);
    let mut collisions = Vec::new();
    let mut sub_collisions = Vec::new();
    update_rock_collisions(&water, &empty_rocks, &navigation, &mut collisions, &mut sub_collisions);
    assert!(collisions.is_empty());
}

#[test]
fn hulls_collide_with_each_other() {
    let mut first = WaterGrid::new(10, 10);
    first.update(false, false);
    first.update_edges();
    let second = WaterGrid::new(10, 10);
    let navigation = Navigation::default();
    let mut collisions = Vec::new();
    update_submarine_collisions(&first, &second, &navigation, &navigation, &mut collisions);
    assert_eq!(collisions, first.edges().clone());
    let mut far = Navigation::default();
    far.position = (100 * 16, 0);
    let mut collisions = Vec::new();
    update_submarine_collisions(&first, &second, &navigation, &far, &mut collisions);
    assert!(collisions.is_empty());
}

fn encode_png(width: u32, height: u32, color: png::ColorType, depth: png::BitDepth, data: &[u8]) -> Vec<u8> {
    let mut bytes = Vec::new();
    let mut encoder = png::Encoder::new(&mut bytes, width, height);
    encoder.set_color(color);
    encoder.set_depth(depth);
    let mut writer = encoder.write_header().expect("header");
    writer.write_image_data(data).expect("data");
    drop(writer);
    bytes
}

#[test]
fn water_images_are_read_pixel_by_pixel() {
    let data = [0, 0, 255, 255, 255, 255, 255, 255, 0, 255, 255, 255, 255, 0, 255, 255, 0, 0, 0, 0, 0, 0, 255, 255];
    let bytes = encode_png(3, 2, png::ColorType::Rgba, png::BitDepth::Eight, &data);
    let (width, height, cells) = load_water_cells_from_png(&bytes).expect("decodes");
    assert_eq!((width, height), (3, 2));
    assert_eq!(
        cells,
        vec![
            CellTemplate::Sea,
            CellTemplate::Wall,
            CellTemplate::Water,
            CellTemplate::Glass,
            CellTemplate::Inside,
            CellTemplate::Sea
        ]
    );
}

#[test]
fn water_images_with_unknown_colours_or_depths_are_refused() {
    let bytes = encode_png(2, 1, png::ColorType::Rgba, png::BitDepth::Eight, &[0, 0, 0, 0, 1, 2, 3, 4]);
    let err = load_water_cells_from_png(&bytes).unwrap_err();
    assert!(err.contains("Unknown color code 1/2/3/4"));

    let rgb = encode_png(2, 1, png::ColorType::Rgb, png::BitDepth::Eight, &[0, 0, 255, 0, 0, 255]);
    assert!(load_water_cells_from_png(&rgb).is_err());

    let deep = encode_png(1, 1, png::ColorType::Rgba, png::BitDepth::Sixteen, &[0; 8]);
    assert_eq!(load_water_cells_from_png(&deep).unwrap_err(), "PNG must be RGBA with 8 bits per channel");
}
