//! Reading submarine templates and worlds from the bytes of their files:
//! the water grid's PNG colour codes and the rock world's 2x2 pixel blocks.

use crate::grid::{cell_index, lemma_cell_index_bounds};
use crate::rocks::{RockGrid, RockType};
use crate::water::{WaterCell, WaterGrid};
use vstd::prelude::*;

verus! {

/// The files that make up a submarine, as bytes.
pub struct SubmarineFileData {
    pub water_grid: Vec<u8>,
    pub background: Vec<u8>,
    pub objects: Vec<u8>,
    pub wires: Vec<u8>,
}

/// What a cell of a submarine template starts as.
#[derive(Clone, Copy, PartialEq, Eq, Structural, Debug)]
pub enum CellTemplate {
    Sea,
    Water,
    Wall,
    Glass,
    Inside,
}

/// The cell template that a water-grid pixel stands for: blue is sea, cyan
/// is water, white is wall, magenta is glass, transparent black is inside.
pub open spec fn template_for_pixel(r: u8, g: u8, b: u8, a: u8) -> Option<CellTemplate> {
    if r == 0 && g == 0 && b == 255 && a == 255 {
        Some(CellTemplate::Sea)
    } else if r == 0 && g == 255 && b == 255 && a == 255 {
        Some(CellTemplate::Water)
    } else if r == 255 && g == 255 && b == 255 && a == 255 {
        Some(CellTemplate::Wall)
    } else if r == 255 && g == 0 && b == 255 && a == 255 {
        Some(CellTemplate::Glass)
    } else if r == 0 && g == 0 && b == 0 && a == 0 {
        Some(CellTemplate::Inside)
    } else {
        None
    }
}

pub fn cell_template_from_pixel(r: u8, g: u8, b: u8, a: u8) -> (t: Option<CellTemplate>)
    ensures
        t == template_for_pixel(r, g, b, a),
{
    if r == 0 && g == 0 && b == 255 && a == 255 {
        Some(CellTemplate::Sea)
    } else if r == 0 && g == 255 && b == 255 && a == 255 {
        Some(CellTemplate::Water)
    } else if r == 255 && g == 255 && b == 255 && a == 255 {
        Some(CellTemplate::Wall)
    } else if r == 255 && g == 0 && b == 255 && a == 255 {
        Some(CellTemplate::Glass)
    } else if r == 0 && g == 0 && b == 0 && a == 0 {
        Some(CellTemplate::Inside)
    } else {
        None
    }
}

/// The template of pixel `x` of an RGBA row.
pub open spec fn row_pixel(data: Seq<u8>, x: int) -> Option<CellTemplate> {
    template_for_pixel(data[4 * x], data[4 * x + 1], data[4 * x + 2], data[4 * x + 3])
}

/// The row holds `width` pixels, each of a known colour.
pub open spec fn row_readable(data: Seq<u8>, width: int) -> bool {
    &&& 4 * width <= data.len()
    &&& forall|x: int| 0 <= x < width ==> (#[trigger] row_pixel(data, x)).is_some()
}

/// Formats the message for a pixel of an unknown colour.
#[verifier::external_body]
fn unknown_color_message(r: u8, g: u8, b: u8, a: u8) -> String {
    format!("Unknown color code {}/{}/{}/{}; expected blue, white, or black-transparent", r, g, b, a)
}

/// The cell templates of one RGBA row of the water grid's image, or an error
/// at the first pixel that is missing or of an unknown colour.
pub fn templates_from_row(data: &[u8], width: usize) -> (r: Result<Vec<CellTemplate>, String>)
    ensures
        r is Ok <==> row_readable(data@, width as int),
        r matches Ok(cells) ==> cells@.len() == width && forall|x: int|
            0 <= x < width ==> Some(#[trigger] cells@[x]) == row_pixel(data@, x),
{
    let mut cells: Vec<CellTemplate> = Vec::new();
    let mut x: usize = 0;
    while x < width
        invariant
            x <= width,
            cells@.len() == x,
            4 * x <= data@.len(),
            forall|i: int| 0 <= i < x ==> Some(#[trigger] cells@[i]) == row_pixel(data@, i),
        decreases width - x,
    {
        if data.len() - 4 * x < 4 {
            return Err("Expected row size to equal PNG width".to_owned());
        }
        let r = data[4 * x];
        let g = data[4 * x + 1];
        let b = data[4 * x + 2];
        let a = data[4 * x + 3];
        match cell_template_from_pixel(r, g, b, a) {
            Some(cell) => cells.push(cell),
            None => {
                proof {
                    assert(!row_pixel(data@, x as int).is_some());
                }
                return Err(unknown_color_message(r, g, b, a));
            },
        }
        x = x + 1;
    }
    proof {
        assert forall|i: int| 0 <= i < width implies (#[trigger] row_pixel(data@, i)).is_some() by {
            assert(Some(cells@[i]) == row_pixel(data@, i));
        }
    }
    Ok(cells)
}

/// The colours of one 2x2 pixel block of the rock world's image, in the
/// order upper-left, upper-right, lower-left, lower-right: whether each is
/// black.
pub open spec fn rock_type_for_block(ul: bool, ur: bool, ll: bool, lr: bool) -> RockType {
    if !ul && !ur && !ll && !lr {
        RockType::Empty
    } else if ul && ur && ll && lr {
        RockType::WallFilled
    } else if (ul && !ur && ll && lr) || (!ul && !ur && ll && !lr) {
        RockType::WallLowerLeft
    } else if (!ul && ur && ll && lr) || (!ul && !ur && !ll && lr) {
        RockType::WallLowerRight
    } else if (ul && ur && ll && !lr) || (ul && !ur && !ll && !lr) {
        RockType::WallUpperLeft
    } else if (ul && ur && !ll && lr) || (!ul && ur && !ll && !lr) {
        RockType::WallUpperRight
    } else {
        RockType::WallFilled
    }
}

/// The shape of a rock cell from which of its four pixels are black.
pub fn rock_type_from_block(colors: [bool; 4]) -> (r: RockType)
    ensures
        r == rock_type_for_block(colors@[0], colors@[1], colors@[2], colors@[3]),
{
    let corners = (colors[0], colors[1], colors[2], colors[3]);
    match corners {
        // Upper-left, upper-right, lower-left, lower-right
        (false, false, false, false) => RockType::Empty,
        (true, true, true, true) => RockType::WallFilled,
        (true, false, true, true) => RockType::WallLowerLeft,
        (false, false, true, false) => RockType::WallLowerLeft,
        (false, true, true, true) => RockType::WallLowerRight,
        (false, false, false, true) => RockType::WallLowerRight,
        (true, true, true, false) => RockType::WallUpperLeft,
        (true, false, false, false) => RockType::WallUpperLeft,
        (true, true, false, true) => RockType::WallUpperRight,
        (false, true, false, false) => RockType::WallUpperRight,
        _ => RockType::WallFilled,
    }
}

/// The corner that a sloped rock leaves open, counting upper-left 0,
/// upper-right 1, lower-left 2, lower-right 3: a wall named after a corner
/// fills that corner and leaves the opposite one open.
pub open spec fn open_corner(t: RockType) -> Option<int> {
    match t {
        RockType::WallLowerRight => Some(0),
        RockType::WallLowerLeft => Some(1),
        RockType::WallUpperRight => Some(2),
        RockType::WallUpperLeft => Some(3),
        _ => None,
    }
}

/// The same rock seen in a mirror held at its side.
pub open spec fn mirrored_sideways(t: RockType) -> RockType {
    match t {
        RockType::WallLowerLeft => RockType::WallLowerRight,
        RockType::WallLowerRight => RockType::WallLowerLeft,
        RockType::WallUpperLeft => RockType::WallUpperRight,
        RockType::WallUpperRight => RockType::WallUpperLeft,
        _ => t,
    }
}

/// The same rock seen in a mirror held above it.
pub open spec fn mirrored_upside_down(t: RockType) -> RockType {
    match t {
        RockType::WallLowerLeft => RockType::WallUpperLeft,
        RockType::WallUpperLeft => RockType::WallLowerLeft,
        RockType::WallLowerRight => RockType::WallUpperRight,
        RockType::WallUpperRight => RockType::WallLowerRight,
        _ => t,
    }
}

/// A block with a single white pixel is the slope whose open corner is that
/// pixel; a block with a single black pixel is the slope that fills that
/// pixel's corner, so its open corner is the opposite one.
pub proof fn law_single_corner_blocks(colors: [bool; 4], c: int)
    requires
        0 <= c < 4,
    ensures
        (!colors@[c] && forall|j: int| 0 <= j < 4 && j != c ==> colors@[j]) ==> open_corner(
            rock_type_for_block(colors@[0], colors@[1], colors@[2], colors@[3]),
        ) == Some(c),
        (colors@[c] && forall|j: int| 0 <= j < 4 && j != c ==> !colors@[j]) ==> open_corner(
            rock_type_for_block(colors@[0], colors@[1], colors@[2], colors@[3]),
        ) == Some(3 - c),
{
    assert(0 != c ==> (0 <= 0 < 4 && 0 != c));
    assert(1 != c ==> (0 <= 1 < 4 && 1 != c));
    assert(2 != c ==> (0 <= 2 < 4 && 2 != c));
    assert(3 != c ==> (0 <= 3 < 4 && 3 != c));
}

/// A block makes empty rock exactly when none of its pixels is black, a
/// slope exactly when one or three of them are, and a filled wall
/// otherwise.
pub proof fn law_block_shapes(ul: bool, ur: bool, ll: bool, lr: bool)
    ensures
        ({
            let t = rock_type_for_block(ul, ur, ll, lr);
            let black = (if ul { 1int } else { 0 }) + (if ur { 1int } else { 0 }) + (if ll { 1int } else { 0 })
                + (if lr { 1int } else { 0 });
            &&& (t == RockType::Empty) == (black == 0)
            &&& (open_corner(t) is Some) == (black == 1 || black == 3)
            &&& (t == RockType::WallFilled) == (black == 2 || black == 4)
        }),
{
}

/// Mirroring a block mirrors the rock it makes: side to side swaps left and
/// right slopes, top to bottom swaps upper and lower ones.
pub proof fn law_mirrored_blocks(ul: bool, ur: bool, ll: bool, lr: bool)
    ensures
        rock_type_for_block(ur, ul, lr, ll) == mirrored_sideways(rock_type_for_block(ul, ur, ll, lr)),
        rock_type_for_block(ll, lr, ul, ur) == mirrored_upside_down(rock_type_for_block(ul, ur, ll, lr)),
{
}

/// Whether pixel `(x, y)` of an RGBA image `width` pixels wide is opaque
/// black.
pub open spec fn pixel_is_black(pixels: Seq<u8>, width: int, x: int, y: int) -> bool {
    let i = 4 * cell_index(width, x, y);
    pixels[i] == 0 && pixels[i + 1] == 0 && pixels[i + 2] == 0 && pixels[i + 3] == 255
}

/// The rock cell made of the 2x2 pixel block at `(2x, 2y)`.
pub open spec fn rock_type_at(pixels: Seq<u8>, width: int, x: int, y: int) -> RockType {
    rock_type_for_block(
        pixel_is_black(pixels, width, 2 * x, 2 * y),
        pixel_is_black(pixels, width, 2 * x + 1, 2 * y),
        pixel_is_black(pixels, width, 2 * x, 2 * y + 1),
        pixel_is_black(pixels, width, 2 * x + 1, 2 * y + 1),
    )
}

fn is_black(pixels: &Vec<u8>, width: usize, height: usize, x: usize, y: usize) -> (r: bool)
    requires
        x < width,
        y < height,
        pixels@.len() == 4 * width * height,
    ensures
        r == pixel_is_black(pixels@, width as int, x as int, y as int),
{
    proof {
        lemma_cell_index_bounds(width as int, height as int, x as int, y as int);
        assert(4 * width * height == 4 * (width * height)) by (nonlinear_arith);
    }
    let _len = pixels.len();
    let i = 4 * (y * width + x);
    pixels[i] == 0 && pixels[i + 1] == 0 && pixels[i + 2] == 0 && pixels[i + 3] == 255
}

/// Builds the rock world from an RGBA image twice its size: each cell is made
/// from a group of 2x2 pixels, whose colors define the cell's type (see
/// `rock_type_for_block`). An odd last column or row of pixels is ignored.
pub fn load_rocks_from_pixels(width: usize, height: usize, pixels: &Vec<u8>) -> (grid: RockGrid)
    requires
        pixels@.len() == 4 * width * height,
    ensures
        grid.wf(),
        grid.w() == width / 2,
        grid.h() == height / 2,
        forall|x: int, y: int|
            0 <= x < width / 2 && 0 <= y < height / 2 ==> (#[trigger] grid.cell_at(x, y)).kind()
                == rock_type_at(pixels@, width as int, x, y),
{
    let _len = pixels.len();
    let grid_width = width / 2;
    let grid_height = height / 2;
    proof {
        assert(grid_width * grid_height <= width * height) by (nonlinear_arith)
            requires
                grid_width <= width,
                grid_height <= height,
        ;
        assert(width * height <= 4 * width * height) by (nonlinear_arith);
    }

    let mut grid = RockGrid::new(grid_width, grid_height);

    let mut y: usize = 0;
    while y < grid_height
        invariant
            grid_width == width / 2,
            grid_height == height / 2,
            pixels@.len() == 4 * width * height,
            grid.wf(),
            grid.w() == grid_width,
            grid.h() == grid_height,
            y <= grid_height,
            forall|xx: int, yy: int|
                0 <= xx < grid_width && 0 <= yy < y ==> (#[trigger] grid.cell_at(xx, yy)).kind()
                    == rock_type_at(pixels@, width as int, xx, yy),
        decreases grid_height - y,
    {
        let mut x: usize = 0;
        while x < grid_width
            invariant
                grid_width == width / 2,
                grid_height == height / 2,
                pixels@.len() == 4 * width * height,
                grid.wf(),
                grid.w() == grid_width,
                grid.h() == grid_height,
                y < grid_height,
                x <= grid_width,
                forall|xx: int, yy: int|
                    0 <= xx < grid_width && 0 <= yy < grid_height && (yy < y || (yy == y && xx < x)) ==> (
                    #[trigger] grid.cell_at(xx, yy)).kind() == rock_type_at(pixels@, width as int, xx, yy),
            decreases grid_width - x,
        {
            let colors = [
                is_black(pixels, width, height, x * 2, y * 2),
                is_black(pixels, width, height, x * 2 + 1, y * 2),
                is_black(pixels, width, height, x * 2, y * 2 + 1),
                is_black(pixels, width, height, x * 2 + 1, y * 2 + 1),
            ];
            let rock_type = rock_type_from_block(colors);
            grid.set_cell_type(x, y, rock_type);
            x = x + 1;
        }
        y = y + 1;
    }

    grid
}

/// What the PNG decoder makes of a file: the image's width, its height,
/// whether it has 8 bits per channel, the byte count of each row, and the
/// rows one after another; `None` when decoding fails.
pub uninterp spec fn png_decoded(bytes: Seq<u8>) -> Option<(u32, u32, bool, usize, Seq<u8>)>;

/// `png::Decoder::new` on a copy of the bytes (the crate's default limits,
/// no transformations), `read_info`, then `next_frame` into a buffer of
/// `output_buffer_size` bytes: the frame's width, height, whether its bit
/// depth is eight, its line size and the buffer. What this gives, and
/// whether it fails, depends on the bytes alone (named `png_decoded`); the
/// crate's error is formatted into the message.
#[verifier::external_body]
fn png_decode(bytes: &[u8]) -> (r: Result<(u32, u32, bool, usize, Vec<u8>), String>)
    ensures
        r is Ok <==> png_decoded(bytes@) is Some,
        r matches Ok(d) ==> png_decoded(bytes@) == Some((d.0, d.1, d.2, d.3, d.4@)),
{
    let mut reader = match png::Decoder::new(std::io::Cursor::new(bytes.to_vec())).read_info() {
        Ok(reader) => reader,
        Err(err) => return Err(format!("Could not read PNG header: {}", err)),
    };
    let mut buffer = vec![0; reader.output_buffer_size()];
    match reader.next_frame(&mut buffer) {
        Ok(frame) => Ok((frame.width, frame.height, matches!(frame.bit_depth, png::BitDepth::Eight), frame.line_size, buffer)),
        Err(err) => Err(format!("Error reading PNG row: {}", err)),
    }
}

/// Row `y` of a decoded image: `line` bytes from `y * line` on.
pub open spec fn png_row(data: Seq<u8>, line: int, y: int) -> Seq<u8> {
    data.subrange(y * line, y * line + line)
}

/// The rows of a decoded image.
pub open spec fn image_rows(image: (u32, u32, bool, usize, Seq<u8>)) -> Seq<Seq<u8>> {
    Seq::new(image.1 as nat, |y: int| png_row(image.4, image.3 as int, y))
}

/// A decoded image can be read as a water grid: it has 8 bits per channel,
/// its cells fit in memory, it holds all its rows, and every pixel of every
/// row is of a known colour.
pub open spec fn water_image_readable(image: (u32, u32, bool, usize, Seq<u8>)) -> bool {
    &&& image.2
    &&& image.0 * image.1 <= usize::MAX
    &&& image.1 * image.3 <= image.4.len()
    &&& forall|y: int| 0 <= y < image.1 ==> row_readable(#[trigger] png_row(image.4, image.3 as int, y), image.0 as int)
}

/// The bytes of `data` from `start` on, `len` of them.
fn copy_bytes(data: &Vec<u8>, start: usize, len: usize) -> (r: Vec<u8>)
    requires
        start + len <= data@.len(),
    ensures
        r@ == data@.subrange(start as int, start + len),
{
    let n = data.len();
    let mut r: Vec<u8> = Vec::new();
    let mut i: usize = 0;
    while i < len
        invariant
            n == data@.len(),
            start + len <= data@.len(),
            i <= len,
            r@ == data@.subrange(start as int, start + i),
        decreases len - i,
    {
        r.push(data[start + i]);
        proof {
            assert(r@ =~= data@.subrange(start as int, start + i + 1));
        }
        i = i + 1;
    }
    r
}

/// The cells read from `rows` of pixels: the cell at `(x, y)` is the
/// template of pixel `x` of row `y`.
pub open spec fn cells_from_rows(cells: Seq<CellTemplate>, width: int, height: int, rows: Seq<Seq<u8>>) -> bool {
    &&& cells.len() == width * height
    &&& rows.len() == height
    &&& forall|x: int, y: int|
        0 <= x < width && 0 <= y < height ==> Some(#[trigger] cells[cell_index(width, x, y)]) == row_pixel(rows[y], x)
}

/// Reads the water grid of a submarine template from its PNG file: the
/// image's size, and a cell template for each pixel in row-major order (see
/// `templates_from_row`), read from the rows that the PNG decoder makes of
/// the bytes. It fails when the file does not decode, does not have 8 bits
/// per channel, is too large, or has a pixel of an unknown colour.
pub fn load_water_cells_from_png(png_bytes: &[u8]) -> (r: Result<(usize, usize, Vec<CellTemplate>), String>)
    ensures
        r is Ok <==> (png_decoded(png_bytes@) matches Some(image) && water_image_readable(image)),
        r matches Ok(result) ==> png_decoded(png_bytes@) matches Some(image) && result.0 == image.0 && result.1
            == image.1 && cells_from_rows(result.2@, image.0 as int, image.1 as int, image_rows(image)),
{
    let (png_width, png_height, eight_bit, line, data) = match png_decode(png_bytes) {
        Ok(image) => image,
        Err(err) => return Err(err),
    };
    let ghost image = (png_width, png_height, eight_bit, line, data@);
    let (width, height) = (png_width as usize, png_height as usize);
    let size = data.len();

    if !eight_bit {
        return Err("PNG must be RGBA with 8 bits per channel".to_owned());
    }
    if width.checked_mul(height).is_none() {
        return Err("PNG is too large".to_owned());
    }
    let rows_size = height.checked_mul(line);
    let fits = match rows_size {
        Some(size) => size <= data.len(),
        None => false,
    };
    if !fits {
        return Err("Expected row count to equal PNG height".to_owned());
    }
    proof {
        assert(image.1 * image.3 <= image.4.len());
    }

    let mut water_template: Vec<CellTemplate> = Vec::new();
    let mut y: usize = 0;
    while y < height
        invariant
            y <= height,
            width == image.0,
            height == image.1,
            line == image.3,
            data@ == image.4,
            png_decoded(png_bytes@) == Some(image),
            size == data@.len(),
            image.2,
            width * height <= usize::MAX,
            height * line <= data@.len(),
            water_template@.len() == y * width,
            forall|yy: int| 0 <= yy < y ==> row_readable(#[trigger] png_row(data@, line as int, yy), width as int),
            cells_from_rows(water_template@, width as int, y as int, image_rows(image).take(y as int)),
        decreases height - y,
    {
        proof {
            assert((y + 1) * line <= height * line) by (nonlinear_arith)
                requires
                    y + 1 <= height,
            ;
            assert((y + 1) * line == y * line + line) by (nonlinear_arith);
        }
        let row = copy_bytes(&data, y * line, line);
        assert(row@ == png_row(data@, line as int, y as int));
        let mut cells = match templates_from_row(row.as_slice(), width) {
            Ok(cells) => cells,
            Err(err) => {
                proof {
                    assert(!row_readable(png_row(image.4, image.3 as int, y as int), image.0 as int));
                    assert(!water_image_readable(image));
                }
                return Err(err);
            },
        };
        proof {
            assert((y + 1) * width == y * width + width) by (nonlinear_arith);
            assert((y + 1) * width <= height * width) by (nonlinear_arith)
                requires
                    y + 1 <= height,
            ;
            assert(height * width == width * height) by (nonlinear_arith);
        }
        let ghost before = water_template@;
        let ghost row_cells = cells@;
        water_template.append(&mut cells);
        proof {
            let next = image_rows(image).take(y + 1);
            assert forall|xx: int, yy: int| 0 <= xx < width && 0 <= yy < y + 1 implies Some(
                #[trigger] water_template@[cell_index(width as int, xx, yy)],
            ) == row_pixel(next[yy], xx) by {
                lemma_cell_index_bounds(width as int, (y + 1) as int, xx, yy);
                if yy < y {
                    lemma_cell_index_bounds(width as int, y as int, xx, yy);
                    assert(water_template@[cell_index(width as int, xx, yy)] == before[cell_index(width as int, xx, yy)]);
                    assert(next[yy] == image_rows(image).take(y as int)[yy]);
                } else {
                    assert(cell_index(width as int, xx, yy) == y * width + xx);
                    assert(water_template@[cell_index(width as int, xx, yy)] == row_cells[xx]);
                    assert(next[yy] == row@);
                }
            }
        }
        y = y + 1;
    }
    proof {
        assert(y * width == width * height) by (nonlinear_arith)
            requires
                y == height,
        ;
        assert(image_rows(image).take(y as int) =~= image_rows(image));
        assert(water_image_readable(image));
    }

    let r: Result<(usize, usize, Vec<CellTemplate>), String> = Ok((width, height, water_template));
    proof {
        let read = r->Ok_0;
        assert(cells_from_rows(read.2@, read.0 as int, read.1 as int, image_rows(image)));
    }
    r
}

/// The PNG file that `png::Encoder` writes for an RGBA image with 8 bits
/// per channel of the given size and pixel bytes.
pub uninterp spec fn png_encoded(width: u32, height: u32, data: Seq<u8>) -> Seq<u8>;

/// `png::Encoder::new` over a fresh buffer, with `set_color(Rgba)`,
/// `set_depth(Eight)`, then `write_header` and `write_image_data`: when it
/// succeeds, the buffer holds the PNG file for these arguments (a function of
/// them alone, named `png_encoded`). In the crate's source the header fails
/// only for a zero width or height (8-bit RGBA is a valid combination), the
/// image data only when its length is not 4 bytes per pixel, and otherwise
/// only when the writer fails, which writing into a `Vec` does not; so it
/// succeeds exactly when the image is not empty and the data fits its size.
/// Its error is formatted into the message.
#[verifier::external_body]
fn png_encode_rgba(width: u32, height: u32, data: &[u8]) -> (r: Result<Vec<u8>, String>)
    requires
        4 * width * height <= usize::MAX,
    ensures
        r is Ok <==> (width > 0 && height > 0 && data@.len() == 4 * width * height),
        r matches Ok(bytes) ==> bytes@ == png_encoded(width, height, data@),
{
    let mut bytes = Vec::new();
    let mut encoder = png::Encoder::new(&mut bytes, width, height);
    encoder.set_color(png::ColorType::Rgba);
    encoder.set_depth(png::BitDepth::Eight);
    let mut writer = match encoder.write_header() {
        Ok(writer) => writer,
        Err(err) => return Err(format!("Could not write PNG header: {}", err)),
    };
    if let Err(err) = writer.write_image_data(data) {
        return Err(format!("Could not write PNG data: {}", err));
    }
    drop(writer);
    Ok(bytes)
}

/// Water that fills a cell more than halfway from full to five times full
/// is saved as sea.
pub open spec fn overfilled(c: WaterCell) -> bool {
    c.spec_level() > 3072
}

/// The colour a water cell is saved as: walls white, overfilled cells blue,
/// anything else transparent black.
pub open spec fn pixel_of_cell(c: WaterCell) -> Seq<u8> {
    if c.spec_is_wall() {
        seq![255u8, 255u8, 255u8, 255u8]
    } else if overfilled(c) {
        seq![0u8, 0u8, 255u8, 255u8]
    } else {
        seq![0u8, 0u8, 0u8, 0u8]
    }
}

/// The RGBA bytes of a sequence of cells, one pixel each.
pub open spec fn pixels_of_cells(cells: Seq<WaterCell>) -> Seq<u8>
    decreases cells.len(),
{
    if cells.len() == 0 {
        Seq::empty()
    } else {
        pixels_of_cells(cells.drop_last()) + pixel_of_cell(cells.last())
    }
}

/// Every cell gives four bytes.
proof fn lemma_pixels_len(cells: Seq<WaterCell>)
    ensures
        pixels_of_cells(cells).len() == 4 * cells.len(),
    decreases cells.len(),
{
    if cells.len() > 0 {
        lemma_pixels_len(cells.drop_last());
    }
}

/// The RGBA image of the water grid, in row-major order.
pub fn water_pixels(grid: &WaterGrid) -> (data: Vec<u8>)
    requires
        grid.wf(),
    ensures
        data@ == pixels_of_cells(grid.cells()),
{
    let (width, height) = grid.size();
    proof {
        grid.lemma_wf();
    }
    let mut data: Vec<u8> = Vec::new();
    let mut y: usize = 0;
    while y < height
        invariant
            grid.wf(),
            width == grid.w(),
            height == grid.h(),
            y <= height,
            data@ == pixels_of_cells(grid.cells().subrange(0, y * width)),
        decreases height - y,
    {
        let mut x: usize = 0;
        while x < width
            invariant
                grid.wf(),
                width == grid.w(),
                height == grid.h(),
                y < height,
                x <= width,
                data@ == pixels_of_cells(grid.cells().subrange(0, y * width + x)),
            decreases width - x,
        {
            proof {
                lemma_cell_index_bounds(width as int, height as int, x as int, y as int);
                grid.lemma_wf();
            }
            let cell = grid.cell(x, y);
            let pixel: [u8; 4] = if cell.is_wall() {
                [255, 255, 255, 255]
            } else if cell.level() > 3072 {
                [0, 0, 255, 255]
            } else {
                [0, 0, 0, 0]
            };
            data.push(pixel[0]);
            data.push(pixel[1]);
            data.push(pixel[2]);
            data.push(pixel[3]);
            proof {
                let k = y * width + x;
                let cells = grid.cells();
                assert(cells.subrange(0, k + 1).drop_last() == cells.subrange(0, k));
                assert(cells.subrange(0, k + 1).last() == cells[k]);
                assert(cells[k] == grid.cell_at(x as int, y as int));
                assert(data@ == pixels_of_cells(cells.subrange(0, k)) + pixel_of_cell(cells[k]));
            }
            x = x + 1;
        }
        proof {
            assert(y * width + width == (y + 1) * width) by (nonlinear_arith);
        }
        y = y + 1;
    }
    proof {
        assert(height * width == width * height) by (nonlinear_arith);
        assert(grid.cells().subrange(0, y * width) == grid.cells());
    }
    data
}

/// Saves the water grid as a PNG image, one pixel per cell (see
/// `pixel_of_cell`); only an empty grid cannot be saved.
pub fn save_water_to_png(grid: &WaterGrid) -> (r: Result<Vec<u8>, String>)
    requires
        grid.wf(),
        grid.w() <= u32::MAX,
        grid.h() <= u32::MAX,
    ensures
        r is Ok <==> (grid.w() > 0 && grid.h() > 0),
        r matches Ok(bytes) ==> bytes@ == png_encoded(
            grid.w() as u32,
            grid.h() as u32,
            pixels_of_cells(grid.cells()),
        ),
{
    let (width, height) = grid.size();
    let data = water_pixels(grid);
    let n = data.len();
    proof {
        grid.lemma_wf();
        lemma_pixels_len(grid.cells());
        assert(4 * width * height == 4 * (width * height)) by (nonlinear_arith);
    }
    png_encode_rgba(width as u32, height as u32, data.as_slice())
}

} // verus!
