//! Keyboard input as the decision logic sees it: the terminal layer maps
//! its own key events into these before handing them over.

use vstd::prelude::*;

verus! {

/// A keyboard key.
#[derive(Debug, Clone, Copy)]
pub enum Key {
    Char(char),
    Enter,
    Esc,
    Tab,
    BackTab,
    Up,
    Down,
    Left,
    Right,
    Backspace,
    /// Any key the logic does not act on.
    Other,
}

/// A key press together with the modifiers the logic cares about.
#[derive(Debug, Clone, Copy)]
pub struct KeyPress {
    pub code: Key,
    pub shift: bool,
    pub ctrl: bool,
}

} // verus!
