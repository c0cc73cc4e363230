//! The state of the mouse in one frame.

use vstd::prelude::*;

verus! {

/// The mouse wheel is in one of three positions.
#[derive(Clone, Copy, Debug, PartialEq, Eq, Structural)]
pub enum MouseWheelState {
    Up,
    Down,
    Idle,
}

/// The wheel state that a scroll event of `y` notches means: down for a
/// negative number, up for any other.
pub fn wheel_state(y: i32) -> (res: MouseWheelState)
    ensures
        res == if y < 0 {
            MouseWheelState::Down
        } else {
            MouseWheelState::Up
        },
{
    if y < 0 {
        MouseWheelState::Down
    } else {
        MouseWheelState::Up
    }
}

/// Where the mouse is, relative to the top left of the window, and what is
/// pressed.
#[derive(Clone, Copy, Debug, PartialEq, Eq)]
pub struct Mouse {
    pub x: i64,
    pub y: i64,
    left: bool,
    right: bool,
    mws: MouseWheelState,
}

impl Mouse {
    pub closed spec fn spec_left(&self) -> bool {
        self.left
    }

    pub closed spec fn spec_right(&self) -> bool {
        self.right
    }

    pub closed spec fn spec_mws(&self) -> MouseWheelState {
        self.mws
    }

    pub closed spec fn spec_pos(&self) -> (i64, i64) {
        (self.x, self.y)
    }

    pub fn new(x: i64, y: i64, left: bool, right: bool, mws: MouseWheelState) -> (res: Mouse)
        ensures
            res.spec_pos() == (x, y),
            res.spec_left() == left,
            res.spec_right() == right,
            res.spec_mws() == mws,
    {
        Mouse { x, y, left, right, mws }
    }

    /// The x and y position of the mouse.
    pub fn pos(&self) -> (res: (i64, i64))
        ensures
            res == self.spec_pos(),
    {
        (self.x, self.y)
    }

    /// Whether the left button is down.
    pub fn left(&self) -> (res: bool)
        ensures
            res == self.spec_left(),
    {
        self.left
    }

    /// Whether the right button is down.
    pub fn right(&self) -> (res: bool)
        ensures
            res == self.spec_right(),
    {
        self.right
    }

    /// The state of the mouse wheel.
    pub fn mws(&self) -> (res: MouseWheelState)
        ensures
            res == self.spec_mws(),
    {
        self.mws
    }
}

} // verus!
