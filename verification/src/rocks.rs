//! The grid which contains the shape of the world in which the submarine
//! exists and collides with. The cells are 16x larger than a single submarine
//! cell.

use crate::grid::{cell_index, lemma_cell_index_bounds, lemma_cell_index_injective};
use vstd::prelude::*;

verus! {

/// The shape of one rock cell: empty, filled, or a wall cut diagonally with
/// its solid half in one of the four corners.
#[derive(Clone, Copy, PartialEq, Eq, Structural, Debug)]
pub enum RockType {
    Empty,
    WallFilled,
    WallLowerLeft,
    WallLowerRight,
    WallUpperLeft,
    WallUpperRight,
}

impl Default for RockType {
    fn default() -> (r: Self)
        ensures
            r == RockType::Empty,
    {
        RockType::Empty
    }
}

#[derive(Clone, Copy, PartialEq, Eq, Structural, Debug)]
pub struct RockCell {
    rock_type: RockType,
}

impl Default for RockCell {
    fn default() -> (r: Self)
        ensures
            r.kind() == RockType::Empty,
    {
        RockCell { rock_type: RockType::Empty }
    }
}

impl RockCell {
    pub closed spec fn kind(&self) -> RockType {
        self.rock_type
    }

    /// Everything but an empty cell counts as a wall.
    pub open spec fn spec_is_wall(&self) -> bool {
        self.kind() != RockType::Empty
    }

    pub fn set_type(&mut self, rock_type: RockType)
        ensures
            final(self).kind() == rock_type,
    {
        self.rock_type = rock_type;
    }

    pub fn rock_type(&self) -> (r: RockType)
        ensures
            r == self.kind(),
    {
        self.rock_type
    }

    pub fn is_wall(&self) -> (r: bool)
        ensures
            r == self.spec_is_wall(),
    {
        !matches!(self.rock_type, RockType::Empty)
    }
}

pub struct RockGrid {
    cells: Vec<RockCell>,
    width: usize,
    height: usize,
}

impl RockGrid {
    pub closed spec fn w(&self) -> int {
        self.width as int
    }

    pub closed spec fn h(&self) -> int {
        self.height as int
    }

    /// The cells in row-major order.
    pub closed spec fn cells(&self) -> Seq<RockCell> {
        self.cells@
    }

    /// One cell per position.
    pub closed spec fn wf(&self) -> bool {
        self.cells@.len() == self.width * self.height
    }

    pub open spec fn in_bounds(&self, x: int, y: int) -> bool {
        0 <= x < self.w() && 0 <= y < self.h()
    }

    pub open spec fn cell_at(&self, x: int, y: int) -> RockCell {
        self.cells()[cell_index(self.w(), x, y)]
    }

    pub proof fn lemma_wf(&self)
        requires
            self.wf(),
        ensures
            self.cells().len() == self.w() * self.h(),
            self.w() >= 0,
            self.h() >= 0,
    {
    }

    /// A grid of empty cells.
    pub fn new(width: usize, height: usize) -> (g: RockGrid)
        requires
            width * height <= usize::MAX,
        ensures
            g.wf(),
            g.w() == width,
            g.h() == height,
            forall|k: int| 0 <= k < g.cells().len() ==> (#[trigger] g.cells()[k]).kind() == RockType::Empty,
    {
        let n = width * height;
        let mut cells: Vec<RockCell> = Vec::new();
        let mut i: usize = 0;
        while i < n
            invariant
                i <= n,
                cells@.len() == i,
                forall|k: int| 0 <= k < i ==> (#[trigger] cells@[k]).kind() == RockType::Empty,
            decreases n - i,
        {
            cells.push(RockCell::default());
            i = i + 1;
        }
        RockGrid { cells, width, height }
    }

    pub fn size(&self) -> (r: (usize, usize))
        ensures
            r.0 == self.w(),
            r.1 == self.h(),
    {
        (self.width, self.height)
    }

    pub fn cell(&self, x: usize, y: usize) -> (r: &RockCell)
        requires
            self.wf(),
            self.in_bounds(x as int, y as int),
        ensures
            *r == self.cell_at(x as int, y as int),
    {
        proof {
            lemma_cell_index_bounds(self.width as int, self.height as int, x as int, y as int);
        }
        let _len = self.cells.len();
        &self.cells[y * self.width + x]
    }

    pub fn cell_mut(&mut self, x: usize, y: usize) -> (r: &mut RockCell)
        requires
            old(self).wf(),
            old(self).in_bounds(x as int, y as int),
        ensures
            *r == old(self).cell_at(x as int, y as int),
            final(self).cells() == old(self).cells().update(
                cell_index(old(self).w(), x as int, y as int),
                *final(r),
            ),
            final(self).wf(),
            final(self).w() == old(self).w(),
            final(self).h() == old(self).h(),
    {
        proof {
            lemma_cell_index_bounds(self.width as int, self.height as int, x as int, y as int);
        }
        let w = self.width;
        let _len = self.cells.len();
        &mut self.cells[y * w + x]
    }
    /// Sets the shape of the cell at `(x, y)`; every other cell stays.
    pub fn set_cell_type(&mut self, x: usize, y: usize, rock_type: RockType)
        requires
            old(self).wf(),
            old(self).in_bounds(x as int, y as int),
        ensures
            final(self).wf(),
            final(self).w() == old(self).w(),
            final(self).h() == old(self).h(),
            final(self).cell_at(x as int, y as int).kind() == rock_type,
            forall|xx: int, yy: int|
                old(self).in_bounds(xx, yy) && !(xx == x && yy == y) ==> #[trigger] final(self).cell_at(xx, yy)
                    == old(self).cell_at(xx, yy),
    {
        let ghost before = *self;
        proof {
            lemma_cell_index_bounds(self.width as int, self.height as int, x as int, y as int);
        }
        let w = self.width;
        let _len = self.cells.len();
        self.cells.set(y * w + x, RockCell { rock_type });
        proof {
            assert forall|xx: int, yy: int|
                before.in_bounds(xx, yy) && !(xx == x && yy == y) implies #[trigger] self.cell_at(xx, yy)
                    == before.cell_at(xx, yy) by {
                lemma_cell_index_bounds(before.w(), before.h(), xx, yy);
                if cell_index(before.w(), xx, yy) == cell_index(before.w(), x as int, y as int) {
                    lemma_cell_index_injective(before.w(), xx, yy, x as int, y as int);
                }
            }
        }
    }
}

} // verus!
