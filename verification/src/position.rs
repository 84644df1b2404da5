//! A point on the window, in pixels from the top-left corner.

use vstd::prelude::*;

verus! {

/// Where something is drawn: `x` grows to the right, `y` grows downward.
#[derive(Clone, Copy, Debug, PartialEq, Eq, Structural)]
pub struct Position {
    pub x: i32,
    pub y: i32,
}

} // verus!
