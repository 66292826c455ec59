//! Input events as the matrix scan reports them.

use vstd::prelude::*;

verus! {

/// Where a keyboard event comes from.
#[derive(Clone, Copy, Debug, PartialEq, Eq, Structural)]
pub enum KeyboardEventPos {
    /// A key of the matrix at logical position (`row`, `col`).
    Key { row: u8, col: u8 },
    /// A rotary encoder turning.
    RotaryEncoder { id: u8, clockwise: bool },
}

/// A press or release.
#[derive(Clone, Copy, Debug, PartialEq, Eq, Structural)]
pub struct KeyboardEvent {
    pub pressed: bool,
    pub pos: KeyboardEventPos,
}

/// An event read from an input device.
#[derive(Clone, Copy, Debug, PartialEq, Eq, Structural)]
pub enum Event {
    /// A keyboard event.
    Key(KeyboardEvent),
    /// Any other event (pointing devices, battery, ...): the engine passes it on untouched.
    Other,
}

/// The event of the key at (`row`, `col`) being pressed (`pressed`) or released.
pub open spec fn key_event(row: u8, col: u8, pressed: bool) -> KeyboardEvent {
    KeyboardEvent { pressed, pos: KeyboardEventPos::Key { row, col } }
}

impl KeyboardEvent {
    /// The event of the key at (`row`, `col`) being pressed (`pressed`) or released.
    pub fn key(row: u8, col: u8, pressed: bool) -> (e: KeyboardEvent)
        ensures
            e == key_event(row, col, pressed),
    {
        KeyboardEvent { pressed, pos: KeyboardEventPos::Key { row, col } }
    }
}

} // verus!
