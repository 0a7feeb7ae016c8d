//! The walkability grid: one direction mask per cell.

use vstd::prelude::*;
use crate::coord::{Coord, DirectionMask};

verus! {

/// A rectangle of cells, `width` cells wide and `height` cells high, with a
/// direction mask for each cell. A fresh grid is impassable everywhere.
#[derive(Clone, Debug)]
pub struct Grid {
    width: usize,
    height: usize,
    columns: Vec<Vec<DirectionMask>>,
}

impl Grid {
    /// The grid's invariant: one column per `x`, each with one mask per `y`.
    pub closed spec fn wf(&self) -> bool {
        &&& self.columns@.len() == self.width
        &&& forall|x: int| 0 <= x < self.width ==> (#[trigger] self.columns@[x])@.len() == self.height
    }

    /// The number of columns.
    pub closed spec fn spec_width(&self) -> usize {
        self.width
    }

    /// The number of rows.
    pub closed spec fn spec_height(&self) -> usize {
        self.height
    }

    /// Whether `c` is a cell of this grid.
    pub open spec fn contains(&self, c: Coord) -> bool {
        c.x < self.spec_width() && c.y < self.spec_height()
    }

    /// The mask of cell `c`; a position outside the grid allows nothing.
    pub closed spec fn mask_at(&self, c: Coord) -> DirectionMask {
        if c.x < self.columns@.len() && c.y < self.columns@[c.x as int]@.len() && self.contains(c) {
            self.columns@[c.x as int]@[c.y as int]
        } else {
            DirectionMask::blocked()
        }
    }

    /// A grid of the given size in which every cell is impassable.
    pub fn new(width: usize, height: usize) -> (grid: Grid)
        ensures
            grid.wf(),
            grid.spec_width() == width,
            grid.spec_height() == height,
            forall|c: Coord| grid.mask_at(c) == DirectionMask::blocked(),
    {
        let mut columns: Vec<Vec<DirectionMask>> = Vec::new();
        let mut x: usize = 0;
        while x < width
            invariant
                x <= width,
                columns@.len() == x,
                forall|i: int| 0 <= i < x ==> (#[trigger] columns@[i])@.len() == height,
                forall|i: int, j: int|
                    0 <= i < x && 0 <= j < height ==> (#[trigger] columns@[i]@[j])
                        == DirectionMask::blocked(),
            decreases width - x,
        {
            let mut column: Vec<DirectionMask> = Vec::new();
            let mut y: usize = 0;
            while y < height
                invariant
                    y <= height,
                    column@.len() == y,
                    forall|j: int| 0 <= j < y ==> (#[trigger] column@[j]) == DirectionMask::blocked(),
                decreases height - y,
            {
                column.push(DirectionMask::none());
                y = y + 1;
            }
            columns.push(column);
            x = x + 1;
        }
        Grid { width, height, columns }
    }

    /// The number of columns.
    pub fn width(&self) -> (w: usize)
        ensures
            w == self.spec_width(),
    {
        self.width
    }

    /// The number of rows.
    pub fn height(&self) -> (h: usize)
        ensures
            h == self.spec_height(),
    {
        self.height
    }

    /// Whether `c` is a cell of this grid.
    pub fn has_cell(&self, c: Coord) -> (b: bool)
        ensures
            b == self.contains(c),
    {
        c.x < self.width && c.y < self.height
    }

    /// The mask of cell `c`; a position outside the grid allows nothing.
    pub fn mask(&self, c: Coord) -> (m: DirectionMask)
        requires
            self.wf(),
        ensures
            m == self.mask_at(c),
    {
        if c.x < self.width && c.y < self.height {
            self.columns[c.x][c.y]
        } else {
            DirectionMask::none()
        }
    }

    /// Gives cell `c` the mask `mask` and leaves every other cell as it was.
    pub fn set(&mut self, c: Coord, mask: DirectionMask)
        requires
            old(self).wf(),
            old(self).contains(c),
        ensures
            final(self).wf(),
            final(self).spec_width() == old(self).spec_width(),
            final(self).spec_height() == old(self).spec_height(),
            final(self).mask_at(c) == mask,
            forall|o: Coord| o != c ==> final(self).mask_at(o) == old(self).mask_at(o),
    {
        self.columns[c.x][c.y] = mask;
    }
}

/// A position outside the grid allows no direction.
pub proof fn lemma_outside_is_blocked(grid: Grid, c: Coord)
    requires
        !grid.contains(c),
    ensures
        grid.mask_at(c) == DirectionMask::blocked(),
{
}

} // verus!
