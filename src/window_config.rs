//! Window geometry kept between sessions.

use vstd::prelude::*;

verus! {

/// Window position and size.
#[derive(Clone, Copy, Debug, PartialEq, Eq, Structural)]
pub struct WindowConfig {
    pub x: i32,
    pub y: i32,
    pub width: u32,
    pub height: u32,
}

impl Default for WindowConfig {
    /// The geometry used when none was saved.
    fn default() -> (r: Self)
        ensures
            r == (WindowConfig { x: 100, y: 100, width: 450, height: 400 }),
    {
        WindowConfig { x: 100, y: 100, width: 450, height: 400 }
    }
}

} // verus!
