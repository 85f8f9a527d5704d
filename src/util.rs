use vstd::prelude::*;

verus! {

/// Number of sub-cell units per grid cell: world coordinates and brush radii
/// are fixed-point values with this many steps per cell.
pub const SUBCELLS: i32 = 256;

/// Largest magnitude of a world coordinate, in sub-cell units.
pub const MAX_COORD: i32 = 0x0100_0000;

/// A point in world space, in sub-cell units (cell `(x, y)` sits at
/// `(x * SUBCELLS, y * SUBCELLS)`).
#[derive(Clone, Copy, Debug, PartialEq, Eq, Structural)]
pub struct Coord {
    pub x: i32,
    pub y: i32,
}

impl Coord {
    /// Both components lie within `MAX_COORD`, which keeps every product that
    /// the rasterizer forms inside 128-bit arithmetic.
    pub open spec fn wf(&self) -> bool {
        -MAX_COORD <= self.x <= MAX_COORD && -MAX_COORD <= self.y <= MAX_COORD
    }

    pub fn new(x: i32, y: i32) -> (r: Self)
        ensures
            r.x == x,
            r.y == y,
    {
        Self { x: x, y: y }
    }
}

} // verus!
