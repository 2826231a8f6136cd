//! The virtual keyboard that the daemon's output goes to.

use vstd::prelude::*;

verus! {

/// A virtual input device: it sends key events (`state` 1 for down, 0 for
/// up) and pointer motion to the system.
pub trait VirtualKeyboard {
    fn send_key(&self, code: u8, state: i32);

    fn mouse_move(&self, x: i32, y: i32);

    fn mouse_scroll(&self, x: i32, y: i32);

    fn mouse_move_abs(&self, x: i32, y: i32);
}

} // verus!
