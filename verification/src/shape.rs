//! Neighborhood shapes: a square window of odd side `2*radius - 1` centered
//! on the origin, together with the bijection between window-relative offsets
//! and linear buffer slots in row-major order.

use vstd::prelude::*;
use vstd::arithmetic::div_mod::{
    lemma_fundamental_div_mod, lemma_fundamental_div_mod_converse, lemma_mod_bound,
    lemma_multiply_divide_lt,
};

use crate::pos::Pos;

verus! {

/// Largest accepted neighborhood radius. The bound keeps the window's slot
/// arithmetic inside `i32` offsets and `usize` slot indices.
pub const MAX_RADIUS: usize = 0x8000;

/// A square neighborhood window of radius `r`, covering every offset
/// `(x, y)` with `|x| <= r - 1` and `|y| <= r - 1`. Radius 2 is the familiar
/// 3x3 window. A shape is immutable; it defines a bijection between in-window
/// offsets and slots in `[0, size)` and carries no other state.
#[derive(Clone, Copy, PartialEq, Eq, Structural, Debug)]
pub struct Shape {
    pub radius: usize,
}

impl Shape {
    /// A shape is well formed when its radius is positive and small enough
    /// for the slot arithmetic to stay in machine range.
    pub open spec fn wf(self) -> bool {
        1 <= self.radius <= MAX_RADIUS
    }

    /// Side length of the square window: `2*radius - 1`.
    pub open spec fn side(self) -> int {
        2 * (self.radius as int) - 1
    }

    /// Total number of slots in the window.
    pub open spec fn size(self) -> int {
        self.side() * self.side()
    }

    /// Whether an offset lies inside the window.
    pub open spec fn contains_offset(self, off: Pos) -> bool {
        &&& -((self.radius as int) - 1) <= off.x as int <= (self.radius as int) - 1
        &&& -((self.radius as int) - 1) <= off.y as int <= (self.radius as int) - 1
    }

    /// The linear slot of an in-window offset: row-major enumeration of the
    /// square, with the top-left corner `(-(r-1), -(r-1))` at slot 0.
    pub open spec fn slot_of(self, off: Pos) -> int {
        (off.x as int + (self.radius as int) - 1)
            + self.side() * (off.y as int + (self.radius as int) - 1)
    }

    /// The offset stored at a linear slot; inverse of `slot_of` on
    /// `[0, size)`.
    pub open spec fn offset_at(self, i: int) -> Pos {
        (Pos {
            x: (i % self.side() - ((self.radius as int) - 1)) as i32,
            y: (i / self.side() - ((self.radius as int) - 1)) as i32,
        })
    }

    /// Builds a shape, rejecting a radius of zero or one too large for the
    /// slot arithmetic. This is the construction-time check that keeps every
    /// later slot lookup total.
    pub fn new(radius: usize) -> (r: Option<Shape>)
        ensures
            r is Some <==> 1 <= radius <= MAX_RADIUS,
            r is Some ==> r == Some((Shape { radius })) && r.unwrap().wf(),
    {
        if 1 <= radius && radius <= MAX_RADIUS {
            Some(Shape { radius })
        } else {
            None
        }
    }

    /// Number of slots in the neighborhood window.
    pub fn neighborhood_size(&self) -> (n: usize)
        requires
            self.wf(),
        ensures
            n == self.size(),
    {
        let side = 2 * self.radius - 1;
        proof {
            assert(side * side <= 0xFFFF * 0xFFFF) by (nonlinear_arith)
                requires
                    side <= 0xFFFF,
            ;
        }
        side * side
    }

    /// Maps an offset to its linear slot; `None` exactly when the offset
    /// lies outside the window.
    pub fn index_of(&self, off: Pos) -> (r: Option<usize>)
        requires
            self.wf(),
        ensures
            r is Some <==> self.contains_offset(off),
            self.contains_offset(off) ==> r == Some(self.slot_of(off) as usize),
            self.contains_offset(off) ==> 0 <= self.slot_of(off) < self.size(),
    {
        let rm1 = (self.radius - 1) as i32;
        if -rm1 <= off.x && off.x <= rm1 && -rm1 <= off.y && off.y <= rm1 {
            let side = 2 * self.radius - 1;
            let ax = (off.x + rm1) as usize;
            let ay = (off.y + rm1) as usize;
            proof {
                assert(ax + side * ay < side * side && side * ay <= side * side) by (nonlinear_arith)
                    requires
                        side >= 1,
                        ax < side,
                        ay < side,
                ;
                assert(side * side <= 0xFFFF * 0xFFFF) by (nonlinear_arith)
                    requires
                        side <= 0xFFFF,
                ;
            }
            Some(ax + side * ay)
        } else {
            None
        }
    }

    /// Maps a linear slot back to its offset; `None` exactly when the slot
    /// is out of range.
    pub fn offset_of(&self, index: usize) -> (r: Option<Pos>)
        requires
            self.wf(),
        ensures
            r is Some <==> index < self.size(),
            index < self.size() ==> r == Some(self.offset_at(index as int)),
    {
        let n = self.neighborhood_size();
        if index < n {
            Some(self.offset_at_checked(index))
        } else {
            None
        }
    }

    /// Slot-to-offset lookup for a slot already known to be in range.
    pub fn offset_at_checked(&self, index: usize) -> (p: Pos)
        requires
            self.wf(),
            index < self.size(),
        ensures
            p == self.offset_at(index as int),
    {
        let side = 2 * self.radius - 1;
        let rm1 = (self.radius - 1) as i32;
        proof {
            lemma_mod_bound(index as int, side as int);
            lemma_multiply_divide_lt(index as int, side as int, side as int);
        }
        let px = (index % side) as i32 - rm1;
        let py = (index / side) as i32 - rm1;
        Pos { x: px, y: py }
    }

    /// Shape bijection, one direction: every valid slot's offset lies in the
    /// window and maps back to that same slot.
    pub proof fn lemma_offset_of_index(self, i: int)
        requires
            self.wf(),
            0 <= i < self.size(),
        ensures
            self.contains_offset(self.offset_at(i)),
            self.slot_of(self.offset_at(i)) == i,
    {
        let s = self.side();
        lemma_fundamental_div_mod(i, s);
        lemma_mod_bound(i, s);
        lemma_multiply_divide_lt(i, s, s);
    }

    /// Shape bijection, the other direction: every in-window offset's slot
    /// is valid and maps back to that same offset.
    pub proof fn lemma_index_of_offset(self, off: Pos)
        requires
            self.wf(),
            self.contains_offset(off),
        ensures
            0 <= self.slot_of(off) < self.size(),
            self.offset_at(self.slot_of(off)) == off,
    {
        let s = self.side();
        let a = off.x as int + (self.radius as int) - 1;
        let b = off.y as int + (self.radius as int) - 1;
        assert(a + s * b < s * s) by (nonlinear_arith)
            requires
                s >= 1,
                0 <= a < s,
                0 <= b < s,
        ;
        lemma_fundamental_div_mod_converse(a + s * b, s, b, a);
    }
}

} // verus!
