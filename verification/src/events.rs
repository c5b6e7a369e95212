//! What the test reacts to: key presses, clock ticks and terminal resizes.
use vstd::prelude::*;

verus! {

/// The keys the test tells apart.
#[derive(Debug, Clone, Copy, PartialEq, Eq, Structural)]
pub enum KeyCode {
    Char(char),
    Enter,
    Esc,
    Backspace,
    Tab,
    /// Any other key.
    Other,
}

/// A key press: the key, and whether Control was held.
#[derive(Debug, Clone, Copy, PartialEq, Eq, Structural)]
pub struct KeyInput {
    pub code: KeyCode,
    pub ctrl: bool,
}

/// An event for the test.
#[derive(Debug, Clone, Copy, PartialEq, Eq, Structural)]
pub enum AppEvent {
    Key(KeyInput),
    /// The periodic clock tick.
    Tick,
    /// The terminal's new width and height.
    Resize(u16, u16),
}

} // verus!
