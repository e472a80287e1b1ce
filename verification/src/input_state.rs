//! What a player's input devices report for one tick.

use vstd::prelude::*;

verus! {

/// The state of a player's keyboard and mouse: the codes of the keys and
/// of the mouse buttons that are held down, and where the cursor is on
/// the screen, in pixels.
#[derive(Debug, Clone, PartialEq, Eq)]
pub struct InputState {
    pub key_pressed: Vec<u32>,
    pub mouse_pressed: Vec<u8>,
    pub cursor_x: u32,
    pub cursor_y: u32,
}

/// The mathematical content of an input state.
pub struct InputStateView {
    pub key_pressed: Seq<u32>,
    pub mouse_pressed: Seq<u8>,
    pub cursor_x: u32,
    pub cursor_y: u32,
}

impl View for InputState {
    type V = InputStateView;

    open spec fn view(&self) -> InputStateView {
        InputStateView {
            key_pressed: self.key_pressed@,
            mouse_pressed: self.mouse_pressed@,
            cursor_x: self.cursor_x,
            cursor_y: self.cursor_y,
        }
    }
}

impl InputState {
    /// The state in which nothing is held down and the cursor is in the
    /// corner.
    pub fn new() -> (state: InputState)
        ensures
            state@ == (InputStateView {
                key_pressed: Seq::empty(),
                mouse_pressed: Seq::empty(),
                cursor_x: 0,
                cursor_y: 0,
            }),
    {
        InputState { key_pressed: Vec::new(), mouse_pressed: Vec::new(), cursor_x: 0, cursor_y: 0 }
    }
}

} // verus!
