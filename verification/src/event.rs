//! Input events: a key with its modifiers.

use vstd::prelude::*;

verus! {

/// The identity of a key: a character, or a key with a name.
#[derive(Debug, Clone, Copy, PartialEq, Eq, Structural, Hash)]
pub enum Event {
    Char(char),
    Esc,
    Enter,
    Backspace,
    Delete,
    Tab,
    Up,
    Down,
    Left,
    Right,
    Home,
    End,
    PageUp,
    PageDown,
}

/// A key press: the key and the modifiers held with it.
#[derive(Debug, Clone, Copy, PartialEq, Eq, Structural, Hash)]
pub struct Input {
    pub event: Event,
    pub ctrl: bool,
    pub alt: bool,
}

impl Input {
    /// The key `event` with no modifier held.
    pub fn plain(event: Event) -> (input: Self)
        ensures
            input == (Input { event, ctrl: false, alt: false }),
    {
        Input { event, ctrl: false, alt: false }
    }

    /// The character key `ch` with no modifier held.
    pub fn char(ch: char) -> (input: Self)
        ensures
            input == (Input { event: Event::Char(ch), ctrl: false, alt: false }),
    {
        Input { event: Event::Char(ch), ctrl: false, alt: false }
    }
}

} // verus!
