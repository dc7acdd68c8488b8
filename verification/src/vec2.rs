//! A 2-D vector of fixed-point scalars.

use vstd::prelude::*;

verus! {

/// A 2-D vector; both components are fixed-point scalars (see `fx::SCALE`).
#[derive(Clone, Copy, PartialEq, Eq, Structural, Debug)]
pub struct V2 {
    pub x: i64,
    pub y: i64,
}

impl V2 {
    /// The zero vector.
    pub fn zero() -> (r: V2)
        ensures
            r.x == 0 && r.y == 0,
    {
        V2 { x: 0, y: 0 }
    }

    pub fn new(x: i64, y: i64) -> (r: V2)
        ensures
            r.x == x && r.y == y,
    {
        V2 { x, y }
    }
}

} // verus!
