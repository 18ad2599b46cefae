//! A displacement between coordinates, in database units.

use vstd::prelude::*;

verus! {

/// A displacement vector in database units, used for array reference
/// spacings.
#[derive(Clone, Copy, Debug, PartialEq, Eq, Structural)]
pub struct Vector {
    pub x: i32,
    pub y: i32,
}

impl Vector {
    pub fn new(x: i32, y: i32) -> (r: Vector)
        ensures
            r == (Vector { x, y }),
    {
        Vector { x, y }
    }
}

} // verus!
