//! Row-major addressing shared by the cell grids.

use vstd::prelude::*;

verus! {

/// Position of neighbour `i` of cell `(x, y)`, in the order down, right, up,
/// left.
pub open spec fn neighbour_pos(x: int, y: int, i: int) -> (int, int) {
    if i == 0 {
        (x, y + 1)
    } else if i == 1 {
        (x + 1, y)
    } else if i == 2 {
        (x, y - 1)
    } else {
        (x - 1, y)
    }
}

/// Position of cell `(x, y)` in the row-major cell vector of a grid `width`
/// cells wide.
pub open spec fn cell_index(width: int, x: int, y: int) -> int {
    y * width + x
}

pub proof fn lemma_cell_index_bounds(width: int, height: int, x: int, y: int)
    requires
        0 <= x < width,
        0 <= y < height,
    ensures
        0 <= cell_index(width, x, y) < width * height,
        cell_index(width, x, y) + width - x <= width * height,
{
    assert(0 <= y * width) by (nonlinear_arith)
        requires
            0 <= y,
            0 <= width,
    ;
    assert((y + 1) * width <= height * width) by (nonlinear_arith)
        requires
            y + 1 <= height,
            0 <= width,
    ;
    assert((y + 1) * width == y * width + width) by (nonlinear_arith);
    assert(height * width == width * height) by (nonlinear_arith);
}

pub proof fn lemma_cell_index_injective(width: int, x1: int, y1: int, x2: int, y2: int)
    requires
        0 <= x1 < width,
        0 <= x2 < width,
        0 <= y1,
        0 <= y2,
        cell_index(width, x1, y1) == cell_index(width, x2, y2),
    ensures
        x1 == x2,
        y1 == y2,
{
    if y1 < y2 {
        assert(y1 * width + width <= y2 * width) by (nonlinear_arith)
            requires
                y1 + 1 <= y2,
                0 <= width,
        ;
    } else if y2 < y1 {
        assert(y2 * width + width <= y1 * width) by (nonlinear_arith)
            requires
                y2 + 1 <= y1,
                0 <= width,
        ;
    }
}

/// The coordinates of the cell stored at position `k` of the vector.
pub proof fn lemma_cell_coordinates(width: int, height: int, k: int) -> (xy: (int, int))
    requires
        0 <= k < width * height,
        0 <= width,
        0 <= height,
    ensures
        0 <= xy.0 < width,
        0 <= xy.1 < height,
        cell_index(width, xy.0, xy.1) == k,
{
    if width == 0 {
        assert(width * height == 0) by (nonlinear_arith)
            requires
                width == 0,
        ;
    }
    let x = k % width;
    let y = k / width;
    assert(k == y * width + x) by (nonlinear_arith)
        requires
            x == k % width,
            y == k / width,
            0 < width,
    ;
    assert(0 <= y) by (nonlinear_arith)
        requires
            y == k / width,
            0 <= k,
            0 < width,
    ;
    if y >= height {
        assert(y * width >= height * width) by (nonlinear_arith)
            requires
                y >= height,
                0 < width,
        ;
        assert(height * width == width * height) by (nonlinear_arith);
    }
    (x, y)
}

/// The coordinates of a cell come back from its index by division.
pub proof fn lemma_index_coordinates(width: int, x: int, y: int)
    requires
        0 <= x < width,
        0 <= y,
    ensures
        cell_index(width, x, y) % width == x,
        cell_index(width, x, y) / width == y,
{
    vstd::arithmetic::div_mod::lemma_fundamental_div_mod_converse(cell_index(width, x, y), width, y, x);
}

} // verus!
