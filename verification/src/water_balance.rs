//! A closed hull keeps its water: when no inside cell touches the sea,
//! walls only push back towards inside cells, and the sea surrounds the
//! hull, an update moves water between cells without making or losing any;
//! the hull stays closed, and as long as every cell's plans account for
//! all of its water, each update records the same total.

use crate::grid::{cell_index, lemma_cell_index_bounds, neighbour_pos};
use crate::water::{
    border_sea, inside_remaining, inside_transfer, is_interior, law_replan_conserves_water, momentum_split_exact,
    opposite, CellType, WaterCell, WaterGrid,
};
use vstd::prelude::*;

verus! {

/// The sum of `f` over the cells `x0 <= x < x1` of row `y`.
pub open spec fn row_sum(f: spec_fn(int, int) -> int, x0: int, x1: int, y: int) -> int
    decreases x1 - x0,
{
    if x1 <= x0 {
        0
    } else {
        row_sum(f, x0, x1 - 1, y) + f(x1 - 1, y)
    }
}

/// The sum of `f` over the rectangle `x0 <= x < x1`, `y0 <= y < y1`.
pub open spec fn rect_sum(f: spec_fn(int, int) -> int, x0: int, x1: int, y0: int, y1: int) -> int
    decreases y1 - y0,
{
    if y1 <= y0 {
        0
    } else {
        rect_sum(f, x0, x1, y0, y1 - 1) + row_sum(f, x0, x1, y1 - 1)
    }
}

proof fn lemma_row_sum_congruent(f: spec_fn(int, int) -> int, h: spec_fn(int, int) -> int, x0: int, x1: int, y: int)
    requires
        forall|x: int| x0 <= x < x1 ==> #[trigger] f(x, y) == h(x, y),
    ensures
        row_sum(f, x0, x1, y) == row_sum(h, x0, x1, y),
    decreases x1 - x0,
{
    if x1 > x0 {
        lemma_row_sum_congruent(f, h, x0, x1 - 1, y);
    }
}

/// Sums of functions that agree on the rectangle are equal.
proof fn lemma_rect_sum_congruent(
    f: spec_fn(int, int) -> int,
    h: spec_fn(int, int) -> int,
    x0: int,
    x1: int,
    y0: int,
    y1: int,
)
    requires
        forall|x: int, y: int| x0 <= x < x1 && y0 <= y < y1 ==> #[trigger] f(x, y) == h(x, y),
    ensures
        rect_sum(f, x0, x1, y0, y1) == rect_sum(h, x0, x1, y0, y1),
    decreases y1 - y0,
{
    if y1 > y0 {
        lemma_rect_sum_congruent(f, h, x0, x1, y0, y1 - 1);
        lemma_row_sum_congruent(f, h, x0, x1, y1 - 1);
    }
}

proof fn lemma_row_sum_add(f: spec_fn(int, int) -> int, h: spec_fn(int, int) -> int, x0: int, x1: int, y: int)
    ensures
        row_sum(|x: int, y: int| f(x, y) + h(x, y), x0, x1, y) == row_sum(f, x0, x1, y) + row_sum(h, x0, x1, y),
    decreases x1 - x0,
{
    if x1 > x0 {
        lemma_row_sum_add(f, h, x0, x1 - 1, y);
    }
}

/// The sum of a sum is the sum of the sums.
proof fn lemma_rect_sum_add(
    f: spec_fn(int, int) -> int,
    h: spec_fn(int, int) -> int,
    x0: int,
    x1: int,
    y0: int,
    y1: int,
)
    ensures
        rect_sum(|x: int, y: int| f(x, y) + h(x, y), x0, x1, y0, y1) == rect_sum(f, x0, x1, y0, y1) + rect_sum(
            h,
            x0,
            x1,
            y0,
            y1,
        ),
    decreases y1 - y0,
{
    if y1 > y0 {
        lemma_rect_sum_add(f, h, x0, x1, y0, y1 - 1);
        lemma_row_sum_add(f, h, x0, x1, y1 - 1);
    }
}

proof fn lemma_row_sum_shift(f: spec_fn(int, int) -> int, dx: int, dy: int, x0: int, x1: int, y: int)
    ensures
        row_sum(|x: int, y: int| f(x + dx, y + dy), x0, x1, y) == row_sum(f, x0 + dx, x1 + dx, y + dy),
    decreases x1 - x0,
{
    if x1 > x0 {
        lemma_row_sum_shift(f, dx, dy, x0, x1 - 1, y);
    }
}

/// Summing a shifted function is summing over the shifted rectangle.
proof fn lemma_rect_sum_shift(f: spec_fn(int, int) -> int, dx: int, dy: int, x0: int, x1: int, y0: int, y1: int)
    ensures
        rect_sum(|x: int, y: int| f(x + dx, y + dy), x0, x1, y0, y1) == rect_sum(
            f,
            x0 + dx,
            x1 + dx,
            y0 + dy,
            y1 + dy,
        ),
    decreases y1 - y0,
{
    if y1 > y0 {
        lemma_rect_sum_shift(f, dx, dy, x0, x1, y0, y1 - 1);
        lemma_row_sum_shift(f, dx, dy, x0, x1, y1 - 1);
    }
}

proof fn lemma_row_sum_zero(f: spec_fn(int, int) -> int, x0: int, x1: int, y: int)
    requires
        forall|x: int| x0 <= x < x1 ==> #[trigger] f(x, y) == 0,
    ensures
        row_sum(f, x0, x1, y) == 0,
    decreases x1 - x0,
{
    if x1 > x0 {
        lemma_row_sum_zero(f, x0, x1 - 1, y);
    }
}

proof fn lemma_row_sum_drop_first(f: spec_fn(int, int) -> int, x0: int, x1: int, y: int)
    requires
        x0 < x1,
    ensures
        row_sum(f, x0, x1, y) == f(x0, y) + row_sum(f, x0 + 1, x1, y),
    decreases x1 - x0,
{
    if x1 > x0 + 1 {
        lemma_row_sum_drop_first(f, x0, x1 - 1, y);
    } else {
        assert(row_sum(f, x0, x0, y) == 0);
    }
}

/// A first row where `f` vanishes adds nothing.
proof fn lemma_rect_sum_drop_first_row(f: spec_fn(int, int) -> int, x0: int, x1: int, y0: int, y1: int)
    requires
        y0 < y1,
        forall|x: int| x0 <= x < x1 ==> #[trigger] f(x, y0) == 0,
    ensures
        rect_sum(f, x0, x1, y0, y1) == rect_sum(f, x0, x1, y0 + 1, y1),
    decreases y1 - y0,
{
    if y1 == y0 + 1 {
        lemma_row_sum_zero(f, x0, x1, y0);
        assert(rect_sum(f, x0, x1, y0, y0) == 0);
    } else {
        lemma_rect_sum_drop_first_row(f, x0, x1, y0, y1 - 1);
    }
}

/// A last row where `f` vanishes adds nothing.
proof fn lemma_rect_sum_drop_last_row(f: spec_fn(int, int) -> int, x0: int, x1: int, y0: int, y1: int)
    requires
        y0 < y1,
        forall|x: int| x0 <= x < x1 ==> #[trigger] f(x, y1 - 1) == 0,
    ensures
        rect_sum(f, x0, x1, y0, y1) == rect_sum(f, x0, x1, y0, y1 - 1),
{
    lemma_row_sum_zero(f, x0, x1, y1 - 1);
}

/// A first column where `f` vanishes adds nothing.
proof fn lemma_rect_sum_drop_first_col(f: spec_fn(int, int) -> int, x0: int, x1: int, y0: int, y1: int)
    requires
        x0 < x1,
        forall|y: int| y0 <= y < y1 ==> #[trigger] f(x0, y) == 0,
    ensures
        rect_sum(f, x0, x1, y0, y1) == rect_sum(f, x0 + 1, x1, y0, y1),
    decreases y1 - y0,
{
    if y1 > y0 {
        lemma_rect_sum_drop_first_col(f, x0, x1, y0, y1 - 1);
        lemma_row_sum_drop_first(f, x0, x1, y1 - 1);
    }
}

/// A last column where `f` vanishes adds nothing.
proof fn lemma_rect_sum_drop_last_col(f: spec_fn(int, int) -> int, x0: int, x1: int, y0: int, y1: int)
    requires
        x0 < x1,
        forall|y: int| y0 <= y < y1 ==> #[trigger] f(x1 - 1, y) == 0,
    ensures
        rect_sum(f, x0, x1, y0, y1) == rect_sum(f, x0, x1 - 1, y0, y1),
    decreases y1 - y0,
{
    if y1 > y0 {
        lemma_rect_sum_drop_last_col(f, x0, x1, y0, y1 - 1);
    }
}

/// What cell `(x, y)` plans to send towards neighbour `d`, counted for the
/// interior cells that hold water: inside cells and walls.
pub open spec fn sent(g: WaterGrid, x: int, y: int, d: int) -> int {
    let c = g.cell_at(x, y);
    if is_interior(g.w(), g.h(), x, y) && (c.spec_is_inside() || c.spec_is_wall()) {
        c.transfers()[d] as int
    } else {
        0
    }
}

/// What an inside cell plans to keep.
pub open spec fn kept(g: WaterGrid, x: int, y: int) -> int {
    match g.cell_at(x, y).kind() {
        CellType::Inside { planned_remaining, .. } => planned_remaining as int,
        _ => 0,
    }
}

/// The water that `(x, y)` holds before an update: what it keeps and what
/// it plans to send.
pub open spec fn held(g: WaterGrid, x: int, y: int) -> int {
    kept(g, x, y) + sent(g, x, y, 0) + sent(g, x, y, 1) + sent(g, x, y, 2) + sent(g, x, y, 3)
}

/// The water that the grid's interior holds before an update.
pub open spec fn held_total(g: WaterGrid) -> int {
    rect_sum(|x: int, y: int| held(g, x, y), 1, g.w() - 1, 1, g.h() - 1)
}

/// The interior cells next to the border.
pub open spec fn on_rim(w: int, h: int, x: int, y: int) -> bool {
    is_interior(w, h, x, y) && (x == 1 || y == 1 || x == w - 2 || y == h - 2)
}

/// A hull surrounded by sea: the cells next to the border are sea, no
/// inside cell touches the sea, and walls push back only towards inside
/// cells (as they do after any update).
pub open spec fn closed_hull(g: WaterGrid) -> bool {
    &&& g.wf()
    &&& forall|x: int, y: int| on_rim(g.w(), g.h(), x, y) ==> (#[trigger] g.cell_at(x, y)).spec_is_sea()
    &&& forall|x: int, y: int, i: int|
        is_interior(g.w(), g.h(), x, y) && 0 <= i < 4 && g.cell_at(x, y).spec_is_inside() ==> !(#[trigger] g.nb(
            x,
            y,
            i,
        )).spec_is_sea()
    &&& forall|x: int, y: int, i: int|
        is_interior(g.w(), g.h(), x, y) && 0 <= i < 4 && g.cell_at(x, y).spec_is_wall() && !g.nb(
            x,
            y,
            i,
        ).spec_is_inside() ==> #[trigger] g.cell_at(x, y).transfers()[i] == 0
}

/// What the update gives `(x, y)` from neighbour `i`: an inside cell takes
/// what the neighbour sends, a wall what an inside neighbour sends, the sea
/// nothing.
pub open spec fn received(g: WaterGrid, x: int, y: int, i: int) -> int {
    let c = g.cell_at(x, y);
    if c.spec_is_inside() {
        g.incoming(x, y, i)
    } else if c.spec_is_wall() {
        g.reflected(x, y, i)
    } else {
        0
    }
}

/// In a closed hull, what a cell receives from a neighbour is what that
/// neighbour sent towards it.
proof fn lemma_edge_flow(g: WaterGrid, x: int, y: int, i: int)
    requires
        closed_hull(g),
        is_interior(g.w(), g.h(), x, y),
        0 <= i < 4,
    ensures
        received(g, x, y, i) == sent(g, neighbour_pos(x, y, i).0, neighbour_pos(x, y, i).1, opposite(i)),
{
    let (nx, ny) = neighbour_pos(x, y, i);
    let j = opposite(i);
    assert(neighbour_pos(nx, ny, j) == (x, y));
    let c = g.cell_at(x, y);
    let n = g.cell_at(nx, ny);
    assert(g.nb(x, y, i) == n);
    assert(g.nb(nx, ny, j) == c);
    if c.spec_is_inside() || c.spec_is_wall() {
        // Not on the rim, so every neighbour is interior.
        assert(!on_rim(g.w(), g.h(), x, y));
        assert(is_interior(g.w(), g.h(), nx, ny));
    }
    if n.spec_is_wall() && is_interior(g.w(), g.h(), nx, ny) && !c.spec_is_inside() {
        assert(g.cell_at(nx, ny).transfers()[j] == 0);
    }
    if n.spec_is_inside() && is_interior(g.w(), g.h(), nx, ny) {
        assert(!g.nb(nx, ny, j).spec_is_sea());
    }
}

/// What a cell holds after an update is what it kept and what it received.
proof fn lemma_contribution_split(g: WaterGrid, x: int, y: int)
    ensures
        g.contribution(x, y) == kept(g, x, y) + received(g, x, y, 0) + received(g, x, y, 1) + received(g, x, y, 2)
            + received(g, x, y, 3),
{
}

proof fn lemma_row_total_sum(g: WaterGrid, y: int, x: int)
    ensures
        g.row_total(y, x) == row_sum(|x: int, y: int| g.contribution(x, y), 1, x, y),
    decreases x,
{
    if x > 1 {
        lemma_row_total_sum(g, y, x - 1);
    }
}

/// The water after an update, as a sum over the interior.
proof fn lemma_rows_total_sum(g: WaterGrid, y: int)
    ensures
        g.rows_total(y) == rect_sum(|x: int, y: int| g.contribution(x, y), 1, g.w() - 1, 1, y),
    decreases y,
{
    if y > 1 {
        lemma_rows_total_sum(g, y - 1);
        lemma_row_total_sum(g, y - 1, g.w() - 1);
    }
}

/// The sum of five functions over a rectangle is the sum of their sums.
proof fn lemma_rect_sum_add5(
    k: spec_fn(int, int) -> int,
    a: spec_fn(int, int) -> int,
    b: spec_fn(int, int) -> int,
    c: spec_fn(int, int) -> int,
    d: spec_fn(int, int) -> int,
    x0: int,
    x1: int,
    y0: int,
    y1: int,
)
    ensures
        rect_sum(|x: int, y: int| k(x, y) + a(x, y) + b(x, y) + c(x, y) + d(x, y), x0, x1, y0, y1) == rect_sum(
            k,
            x0,
            x1,
            y0,
            y1,
        ) + rect_sum(a, x0, x1, y0, y1) + rect_sum(b, x0, x1, y0, y1) + rect_sum(c, x0, x1, y0, y1) + rect_sum(
            d,
            x0,
            x1,
            y0,
            y1,
        ),
{
    let s1 = |x: int, y: int| k(x, y) + a(x, y);
    let s2 = |x: int, y: int| s1(x, y) + b(x, y);
    let s3 = |x: int, y: int| s2(x, y) + c(x, y);
    lemma_rect_sum_add(k, a, x0, x1, y0, y1);
    lemma_rect_sum_add(s1, b, x0, x1, y0, y1);
    lemma_rect_sum_add(s2, c, x0, x1, y0, y1);
    lemma_rect_sum_add(s3, d, x0, x1, y0, y1);
    lemma_rect_sum_congruent(
        |x: int, y: int| k(x, y) + a(x, y) + b(x, y) + c(x, y) + d(x, y),
        |x: int, y: int| s3(x, y) + d(x, y),
        x0,
        x1,
        y0,
        y1,
    );
}

/// A closed hull keeps its water through an update: the water that the
/// interior holds after the update (which `WaterGrid::update` records as
/// the grid's total) is what its cells kept and planned to send before.
pub proof fn law_closed_hull_keeps_water(g: WaterGrid)
    requires
        closed_hull(g),
    ensures
        g.updated_total() == held_total(g),
{
    let w = g.w();
    let h = g.h();
    let contribution = |x: int, y: int| g.contribution(x, y);
    let held_at = |x: int, y: int| held(g, x, y);
    lemma_rows_total_sum(g, h - 1);
    if w < 3 || h < 3 {
        lemma_rect_sum_congruent(contribution, held_at, 1, w - 1, 1, h - 1);
        return;
    }
    let k = |x: int, y: int| kept(g, x, y);
    let d0 = |x: int, y: int| sent(g, x, y, 0);
    let d1 = |x: int, y: int| sent(g, x, y, 1);
    let d2 = |x: int, y: int| sent(g, x, y, 2);
    let d3 = |x: int, y: int| sent(g, x, y, 3);
    let from_below = |x: int, y: int| d2(x + 0, y + 1);
    let from_right = |x: int, y: int| d3(x + 1, y + 0);
    let from_above = |x: int, y: int| d0(x + 0, y + -1);
    let from_left = |x: int, y: int| d1(x + -1, y + 0);

    // Each cell holds what it kept and what its neighbours sent it.
    assert forall|x: int, y: int| 1 <= x < w - 1 && 1 <= y < h - 1 implies #[trigger] contribution(x, y) == k(x, y)
        + from_below(x, y) + from_right(x, y) + from_above(x, y) + from_left(x, y) by {
        lemma_contribution_split(g, x, y);
        lemma_edge_flow(g, x, y, 0);
        lemma_edge_flow(g, x, y, 1);
        lemma_edge_flow(g, x, y, 2);
        lemma_edge_flow(g, x, y, 3);
    }
    lemma_rect_sum_congruent(
        contribution,
        |x: int, y: int| k(x, y) + from_below(x, y) + from_right(x, y) + from_above(x, y) + from_left(x, y),
        1,
        w - 1,
        1,
        h - 1,
    );
    lemma_rect_sum_add5(k, from_below, from_right, from_above, from_left, 1, w - 1, 1, h - 1);

    // The rim sends nothing, and nothing is sent from outside the interior.
    assert forall|x: int, y: int| on_rim(w, h, x, y) implies #[trigger] sent(g, x, y, 0) == 0 && sent(g, x, y, 1) == 0
        && sent(g, x, y, 2) == 0 && sent(g, x, y, 3) == 0 by {
        assert(g.cell_at(x, y).spec_is_sea());
    }

    // Water sent down arrives from above, and so on.
    lemma_rect_sum_shift(d2, 0, 1, 1, w - 1, 1, h - 1);
    lemma_rect_sum_congruent(from_below, |x: int, y: int| d2(x + 0, y + 1), 1, w - 1, 1, h - 1);
    assert forall|x: int| 1 <= x < w - 1 implies #[trigger] d2(x, h - 1) == 0 && d2(x, 1) == 0 by {
        assert(on_rim(w, h, x, 1));
    }
    lemma_rect_sum_drop_last_row(d2, 1, w - 1, 2, h);
    lemma_rect_sum_drop_first_row(d2, 1, w - 1, 1, h - 1);

    lemma_rect_sum_shift(d3, 1, 0, 1, w - 1, 1, h - 1);
    lemma_rect_sum_congruent(from_right, |x: int, y: int| d3(x + 1, y + 0), 1, w - 1, 1, h - 1);
    assert forall|y: int| 1 <= y < h - 1 implies #[trigger] d3(w - 1, y) == 0 && d3(1, y) == 0 by {
        assert(on_rim(w, h, 1, y));
    }
    lemma_rect_sum_drop_last_col(d3, 2, w, 1, h - 1);
    lemma_rect_sum_drop_first_col(d3, 1, w - 1, 1, h - 1);

    lemma_rect_sum_shift(d0, 0, -1, 1, w - 1, 1, h - 1);
    lemma_rect_sum_congruent(from_above, |x: int, y: int| d0(x + 0, y + -1), 1, w - 1, 1, h - 1);
    assert forall|x: int| 1 <= x < w - 1 implies #[trigger] d0(x, 0) == 0 && d0(x, h - 2) == 0 by {
        assert(on_rim(w, h, x, h - 2));
    }
    lemma_rect_sum_drop_first_row(d0, 1, w - 1, 0, h - 2);
    lemma_rect_sum_drop_last_row(d0, 1, w - 1, 1, h - 1);

    lemma_rect_sum_shift(d1, -1, 0, 1, w - 1, 1, h - 1);
    lemma_rect_sum_congruent(from_left, |x: int, y: int| d1(x + -1, y + 0), 1, w - 1, 1, h - 1);
    assert forall|y: int| 1 <= y < h - 1 implies #[trigger] d1(0, y) == 0 && d1(w - 2, y) == 0 by {
        assert(on_rim(w, h, w - 2, y));
    }
    lemma_rect_sum_drop_first_col(d1, 0, w - 2, 1, h - 1);
    lemma_rect_sum_drop_last_col(d1, 1, w - 1, 1, h - 1);

    // What the cells held before, summed the same way.
    lemma_rect_sum_add5(k, d2, d3, d0, d1, 1, w - 1, 1, h - 1);
    lemma_rect_sum_congruent(
        held_at,
        |x: int, y: int| k(x, y) + d2(x, y) + d3(x, y) + d0(x, y) + d1(x, y),
        1,
        w - 1,
        1,
        h - 1,
    );
}

proof fn lemma_row_sum_bound(f: spec_fn(int, int) -> int, x0: int, x1: int, y: int, x: int)
    requires
        forall|xx: int| x0 <= xx < x1 ==> #[trigger] f(xx, y) >= 0,
    ensures
        row_sum(f, x0, x1, y) >= 0,
        x0 <= x < x1 ==> f(x, y) <= row_sum(f, x0, x1, y),
    decreases x1 - x0,
{
    if x1 > x0 {
        lemma_row_sum_bound(f, x0, x1 - 1, y, x);
    }
}

/// A sum of values that are not negative is at least each of them.
proof fn lemma_rect_sum_bound(f: spec_fn(int, int) -> int, x0: int, x1: int, y0: int, y1: int, x: int, y: int)
    requires
        forall|xx: int, yy: int| x0 <= xx < x1 && y0 <= yy < y1 ==> #[trigger] f(xx, yy) >= 0,
    ensures
        rect_sum(f, x0, x1, y0, y1) >= 0,
        x0 <= x < x1 && y0 <= y < y1 ==> f(x, y) <= rect_sum(f, x0, x1, y0, y1),
    decreases y1 - y0,
{
    if y1 > y0 {
        lemma_rect_sum_bound(f, x0, x1, y0, y1 - 1, x, y);
        lemma_row_sum_bound(f, x0, x1, y1 - 1, x);
    }
}

/// What `WaterGrid::update` makes of `g`, as its postcondition states.
pub open spec fn is_update_of(g2: WaterGrid, g: WaterGrid, gravity: bool, inertia: bool) -> bool {
    &&& g2.wf()
    &&& g2.w() == g.w()
    &&& g2.h() == g.h()
    &&& g2.spec_total_water() == g.updated_total()
    &&& g2.velocities_ok()
    &&& forall|x: int, y: int|
        g.in_bounds(x, y) ==> #[trigger] g2.cell_at(x, y) == if is_interior(g.w(), g.h(), x, y) {
            g.updated_cell(x, y, gravity, inertia)
        } else {
            border_sea()
        }
}

/// Every inside cell plans away exactly its level (see
/// `law_replan_conserves_water`).
pub open spec fn plans_exact(g: WaterGrid) -> bool {
    forall|x: int, y: int|
        is_interior(g.w(), g.h(), x, y) && (#[trigger] g.cell_at(x, y)).spec_is_inside() ==> momentum_split_exact(
            g.cell_at(x, y).spec_level(),
            g.cell_at(x, y).spec_velocity(),
        )
}

/// An update keeps what each cell is.
proof fn lemma_updated_kind(g: WaterGrid, x: int, y: int, gravity: bool, inertia: bool)
    ensures
        g.updated_cell(x, y, gravity, inertia).spec_is_inside() == g.cell_at(x, y).spec_is_inside(),
        g.updated_cell(x, y, gravity, inertia).spec_is_wall() == g.cell_at(x, y).spec_is_wall(),
        g.updated_cell(x, y, gravity, inertia).spec_is_sea() == g.cell_at(x, y).spec_is_sea(),
{
    match g.cell_at(x, y).kind() {
        CellType::Wall { .. } => {
            let r = [
                g.reflected(x, y, 0) as u32,
                g.reflected(x, y, 1) as u32,
                g.reflected(x, y, 2) as u32,
                g.reflected(x, y, 3) as u32,
            ];
            WaterCell::lemma_make(CellType::Wall { wall_reflect: r }, r@);
        },
        CellType::Sea => {
            let c = WaterCell::make(CellType::Sea, seq![0u32, 0u32, 0u32, 0u32]);
            WaterCell::lemma_make(CellType::Sea, seq![0u32, 0u32, 0u32, 0u32]);
            WaterCell::lemma_replanned_keeps(c);
        },
        CellType::Inside { planned_remaining, .. } => {
            let kind = CellType::Inside {
                level: (planned_remaining + g.gathered(x, y)) as u32,
                velocity: g.new_velocity(x, y, gravity, inertia),
                planned_remaining: 0,
            };
            WaterCell::lemma_make(kind, seq![0u32, 0u32, 0u32, 0u32]);
            WaterCell::lemma_replanned_keeps(WaterCell::make(kind, seq![0u32, 0u32, 0u32, 0u32]));
        },
    }
}

/// After an update, a cell whose new plans are exact holds what the update
/// gave it.
proof fn lemma_held_after_update(g: WaterGrid, g2: WaterGrid, gravity: bool, inertia: bool, x: int, y: int)
    requires
        g.wf(),
        is_update_of(g2, g, gravity, inertia),
        is_interior(g.w(), g.h(), x, y),
        plans_exact(g2),
        g.contribution(x, y) <= u32::MAX,
    ensures
        held(g2, x, y) == g.contribution(x, y),
{
    assert(g.in_bounds(x, y));
    let c2 = g2.cell_at(x, y);
    assert(c2 == g.updated_cell(x, y, gravity, inertia));
    lemma_updated_kind(g, x, y, gravity, inertia);
    match g.cell_at(x, y).kind() {
        CellType::Wall { .. } => {
            let r = [
                g.reflected(x, y, 0) as u32,
                g.reflected(x, y, 1) as u32,
                g.reflected(x, y, 2) as u32,
                g.reflected(x, y, 3) as u32,
            ];
            WaterCell::lemma_make(CellType::Wall { wall_reflect: r }, r@);
            assert(c2.transfers() == r@);
        },
        CellType::Sea => {},
        CellType::Inside { planned_remaining, .. } => {
            let level = (planned_remaining + g.gathered(x, y)) as u32;
            let velocity = g.new_velocity(x, y, gravity, inertia);
            let kind = CellType::Inside { level, velocity, planned_remaining: 0 };
            WaterCell::lemma_make(kind, seq![0u32, 0u32, 0u32, 0u32]);
            let planned = CellType::Inside {
                level,
                velocity,
                planned_remaining: inside_remaining(level as int, velocity) as u32,
            };
            let sends = Seq::new(4, |d: int| inside_transfer(level as int, velocity, d) as u32);
            WaterCell::lemma_make(planned, sends);
            assert(c2.kind() == planned);
            assert(c2.transfers() == sends);
            // The new velocity is within bounds, since every velocity is.
            lemma_cell_index_bounds(g2.w(), g2.h(), x, y);
            g2.lemma_wf();
            assert(g2.cells()[cell_index(g2.w(), x, y)].velocity_ok());
            assert(c2.spec_level() == level && c2.spec_velocity() == velocity);
            law_replan_conserves_water(level, velocity);
            let l = level as int;
            assert(inside_remaining(l, velocity) >= 0);
            assert(forall|d: int| 0 <= d < 4 ==> #[trigger] inside_transfer(l, velocity, d) >= 0);
            assert(sends[0] as int == inside_transfer(l, velocity, 0));
            assert(sends[1] as int == inside_transfer(l, velocity, 1));
            assert(sends[2] as int == inside_transfer(l, velocity, 2));
            assert(sends[3] as int == inside_transfer(l, velocity, 3));
        },
    }
}

/// A closed hull stays closed through an update. When every inside cell's
/// new plans account for all of its water, what the hull then holds is the
/// total that the update recorded, and the next update records that same
/// total again.
pub proof fn law_closed_hull_keeps_its_total(g: WaterGrid, g2: WaterGrid, gravity: bool, inertia: bool)
    requires
        closed_hull(g),
        g.update_fits(),
        is_update_of(g2, g, gravity, inertia),
    ensures
        closed_hull(g2),
        plans_exact(g2) ==> held_total(g2) == g2.spec_total_water(),
        plans_exact(g2) ==> g2.updated_total() == g2.spec_total_water(),
{
    let w = g.w();
    let h = g.h();
    // What each cell is stays the same inside the border.
    assert forall|x: int, y: int| is_interior(w, h, x, y) implies {
        &&& (#[trigger] g2.cell_at(x, y)).spec_is_inside() == g.cell_at(x, y).spec_is_inside()
        &&& g2.cell_at(x, y).spec_is_wall() == g.cell_at(x, y).spec_is_wall()
        &&& g2.cell_at(x, y).spec_is_sea() == g.cell_at(x, y).spec_is_sea()
    } by {
        assert(g.in_bounds(x, y));
        lemma_updated_kind(g, x, y, gravity, inertia);
    }
    assert forall|x: int, y: int| on_rim(g2.w(), g2.h(), x, y) implies (#[trigger] g2.cell_at(x, y)).spec_is_sea() by {
        assert(g.cell_at(x, y).spec_is_sea());
    }
    assert forall|x: int, y: int, i: int|
        is_interior(g2.w(), g2.h(), x, y) && 0 <= i < 4 && g2.cell_at(x, y).spec_is_inside() implies !(#[trigger] g2.nb(
            x,
            y,
            i,
        )).spec_is_sea() by {
        assert(g.cell_at(x, y).spec_is_inside());
        assert(!on_rim(w, h, x, y));
        let (nx, ny) = neighbour_pos(x, y, i);
        assert(is_interior(w, h, nx, ny));
        assert(g2.nb(x, y, i) == g2.cell_at(nx, ny));
        assert(!g.nb(x, y, i).spec_is_sea());
    }
    assert forall|x: int, y: int, i: int|
        is_interior(g2.w(), g2.h(), x, y) && 0 <= i < 4 && g2.cell_at(x, y).spec_is_wall() && !g2.nb(
            x,
            y,
            i,
        ).spec_is_inside() implies #[trigger] g2.cell_at(x, y).transfers()[i] == 0 by {
        assert(g.cell_at(x, y).spec_is_wall());
        assert(!on_rim(w, h, x, y));
        let (nx, ny) = neighbour_pos(x, y, i);
        assert(is_interior(w, h, nx, ny));
        assert(g2.nb(x, y, i) == g2.cell_at(nx, ny));
        assert(!g.nb(x, y, i).spec_is_inside());
        assert(g.in_bounds(x, y));
        match g.cell_at(x, y).kind() {
            CellType::Wall { .. } => {
                let r = [
                    g.reflected(x, y, 0) as u32,
                    g.reflected(x, y, 1) as u32,
                    g.reflected(x, y, 2) as u32,
                    g.reflected(x, y, 3) as u32,
                ];
                WaterCell::lemma_make(CellType::Wall { wall_reflect: r }, r@);
                assert(g.reflected(x, y, i) == 0);
                assert(r@[i] == 0);
            },
            _ => {},
        }
    }
    assert(closed_hull(g2));

    if plans_exact(g2) {
        let contribution = |x: int, y: int| g.contribution(x, y);
        let held_after = |x: int, y: int| held(g2, x, y);
        lemma_rows_total_sum(g, h - 1);
        assert forall|x: int, y: int| 1 <= x < w - 1 && 1 <= y < h - 1 implies #[trigger] contribution(x, y) >= 0 by {}
        assert forall|x: int, y: int| 1 <= x < w - 1 && 1 <= y < h - 1 implies #[trigger] held_after(x, y) == contribution(
            x,
            y,
        ) by {
            lemma_rect_sum_bound(contribution, 1, w - 1, 1, h - 1, x, y);
            lemma_held_after_update(g, g2, gravity, inertia, x, y);
        }
        lemma_rect_sum_congruent(held_after, contribution, 1, w - 1, 1, h - 1);
        law_closed_hull_keeps_water(g2);
    }
}

} // verus!
