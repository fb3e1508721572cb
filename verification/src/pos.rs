//! Two-dimensional integer positions, used both for absolute field
//! coordinates and for window-relative neighborhood offsets.

use vstd::prelude::*;

verus! {

/// A 2D integer vector. Absolute coordinates may be any `i32` values: the
/// field applies toroidal wraparound, so every position resolves to an
/// in-bounds cell.
#[derive(Clone, Copy, PartialEq, Eq, Structural, Debug)]
pub struct Pos {
    pub x: i32,
    pub y: i32,
}

impl Pos {
    pub fn new(x: i32, y: i32) -> (p: Pos)
        ensures
            p.x == x,
            p.y == y,
    {
        Pos { x, y }
    }
}

} // verus!
