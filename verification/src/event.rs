//! What a user can do that a project hears of.

use vstd::prelude::*;

verus! {

/// The user events that reach a project, so that it need not know the
/// windowing library.
#[derive(Clone, Copy, Debug, PartialEq, Eq, Structural)]
pub enum Event {
    KeyLeft,
    KeyDown,
    KeyUp,
    KeyRight,
    WheelUp,
    WheelDown,
    MouseLeft,
    MouseRight,
    Escape,
    Idle,
}

} // verus!
