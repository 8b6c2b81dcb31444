//! Persisted window placement. Reading and writing the file belongs to
//! the surrounding application.

use vstd::prelude::*;

verus! {

/// Window position; size is configuration-driven.
#[derive(Clone, Copy, PartialEq, Eq, Structural, Debug)]
pub struct WindowState {
    /// X position of the window's outer bounds.
    pub x: i32,
    /// Y position of the window's outer bounds.
    pub y: i32,
}

impl WindowState {
    /// A window state at the given coordinates.
    pub fn new(x: i32, y: i32) -> (r: WindowState)
        ensures
            r.x == x,
            r.y == y,
    {
        WindowState { x, y }
    }
}

} // verus!
