//! Key presses.

use vstd::prelude::*;

verus! {

/// A key, as far as the program tells keys apart.
#[derive(Clone, Copy, Debug, PartialEq, Eq, Structural)]
pub enum KeyCode {
    Char(char),
    Enter,
    Esc,
    Tab,
    Backspace,
    Delete,
    Left,
    Right,
    Up,
    Down,
    Home,
    End,
    /// Any other key.
    Other,
}

/// The modifier keys held during a key press.
#[derive(Clone, Copy, Debug, PartialEq, Eq, Structural)]
pub struct KeyModifiers {
    pub control: bool,
}

impl KeyModifiers {
    /// No modifier.
    pub fn none() -> (mods: KeyModifiers)
        ensures
            !mods.control,
    {
        KeyModifiers { control: false }
    }

    /// The control key.
    pub fn ctrl() -> (mods: KeyModifiers)
        ensures
            mods.control,
    {
        KeyModifiers { control: true }
    }
}

} // verus!
