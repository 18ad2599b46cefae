//! A geometric coordinate pair, in database units.

use vstd::prelude::*;

verus! {

/// A coordinate pair in database units, exactly as XY records store it.
#[derive(Clone, Copy, Debug, PartialEq, Eq, Structural)]
pub struct Points {
    pub x: i32,
    pub y: i32,
}

impl Points {
    pub fn new(x: i32, y: i32) -> (r: Points)
        ensures
            r == (Points { x, y }),
    {
        Points { x, y }
    }
}

} // verus!
