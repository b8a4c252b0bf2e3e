//! What the player did during one frame, named by action rather than key.
use vstd::prelude::*;

verus! {

/// One frame of input: the time since the previous frame, the actions held
/// down, and the actions whose key went down during this frame.
#[derive(Clone, Copy, PartialEq, Eq, Structural, Debug)]
pub struct FrameInput {
    pub dt_ms: u64,
    pub up_held: bool,
    pub down_held: bool,
    pub left_held: bool,
    pub right_held: bool,
    pub interact_held: bool,
    pub interact_pressed: bool,
    pub inventory_pressed: bool,
    pub menu_up_pressed: bool,
    pub menu_down_pressed: bool,
    pub confirm_pressed: bool,
    pub cancel_pressed: bool,
    pub dream_pressed: bool,
}

impl FrameInput {
    /// A frame of `dt_ms` milliseconds in which nothing is held or pressed.
    pub fn idle(dt_ms: u64) -> (r: FrameInput)
        ensures
            r == (FrameInput {
                dt_ms,
                up_held: false,
                down_held: false,
                left_held: false,
                right_held: false,
                interact_held: false,
                interact_pressed: false,
                inventory_pressed: false,
                menu_up_pressed: false,
                menu_down_pressed: false,
                confirm_pressed: false,
                cancel_pressed: false,
                dream_pressed: false,
            }),
    {
        FrameInput {
            dt_ms,
            up_held: false,
            down_held: false,
            left_held: false,
            right_held: false,
            interact_held: false,
            interact_pressed: false,
            inventory_pressed: false,
            menu_up_pressed: false,
            menu_down_pressed: false,
            confirm_pressed: false,
            cancel_pressed: false,
            dream_pressed: false,
        }
    }
}

} // verus!
