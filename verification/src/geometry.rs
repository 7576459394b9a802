//! Plain coordinate types shared by the whole crate.

use vstd::prelude::*;

verus! {

/// A pair of unsigned measures: a map size in cells, a cell of the map, or a
/// size in the atlas.
#[derive(Clone, Copy, Debug, PartialEq, Eq, Structural)]
pub struct UVec2 {
    pub x: u32,
    pub y: u32,
}

/// A cell of the unbounded grid. Cells of a map have non-negative coordinates;
/// the neighbours of a border cell may not.
#[derive(Clone, Copy, Debug, PartialEq, Eq, Structural)]
pub struct GridCoord {
    pub x: i64,
    pub y: i64,
}

/// An offset in world space, counted in sub-steps of the projection that
/// produced it.
#[derive(Clone, Copy, Debug, PartialEq, Eq, Structural)]
pub struct WorldOffset {
    pub x: i128,
    pub y: i128,
}

/// One of the two axes of the grid or of the atlas.
#[derive(Clone, Copy, Debug, PartialEq, Eq, Structural)]
pub enum Axis {
    X,
    Y,
}

impl UVec2 {
    /// The pair `(x, y)`.
    pub fn new(x: u32, y: u32) -> (r: UVec2)
        ensures
            r.x == x,
            r.y == y,
    {
        UVec2 { x, y }
    }

    /// The grid cell with the same coordinates.
    pub open spec fn cell(self) -> GridCoord {
        GridCoord { x: self.x as i64, y: self.y as i64 }
    }

    /// The grid cell with the same coordinates.
    pub fn to_grid(self) -> (r: GridCoord)
        ensures
            r == self.cell(),
    {
        GridCoord { x: self.x as i64, y: self.y as i64 }
    }
}

impl GridCoord {
    /// The cell `(x, y)`.
    pub fn new(x: i64, y: i64) -> (r: GridCoord)
        ensures
            r.x == x,
            r.y == y,
    {
        GridCoord { x, y }
    }

    /// Row-major order of cells: rows by ascending `y`, and within a row by
    /// ascending `x`.
    pub open spec fn row_major_lt(self, other: GridCoord) -> bool {
        self.y < other.y || (self.y == other.y && self.x < other.x)
    }
}

} // verus!
