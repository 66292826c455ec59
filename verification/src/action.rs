//! Key actions: what a keymap cell makes the keyboard do.
//!
//! A keycode is its HID usage ID on the Keyboard/Keypad page (0x07).

use vstd::prelude::*;

verus! {

pub const INSERT: u16 = 0x49;
pub const HOME: u16 = 0x4A;
pub const PAGE_UP: u16 = 0x4B;
pub const DELETE: u16 = 0x4C;
pub const END: u16 = 0x4D;
pub const PAGE_DOWN: u16 = 0x4E;
pub const RIGHT: u16 = 0x4F;
pub const LEFT: u16 = 0x50;
pub const DOWN: u16 = 0x51;
pub const UP: u16 = 0x52;
pub const NUM_LOCK: u16 = 0x53;
pub const KP_SLASH: u16 = 0x54;
pub const KP_ASTERISK: u16 = 0x55;
pub const KP_MINUS: u16 = 0x56;
pub const KP_PLUS: u16 = 0x57;
pub const KP_ENTER: u16 = 0x58;
pub const KP_1: u16 = 0x59;
pub const KP_2: u16 = 0x5A;
pub const KP_3: u16 = 0x5B;
pub const KP_4: u16 = 0x5C;
pub const KP_5: u16 = 0x5D;
pub const KP_6: u16 = 0x5E;
pub const KP_7: u16 = 0x5F;
pub const KP_8: u16 = 0x60;
pub const KP_9: u16 = 0x61;
pub const KP_0: u16 = 0x62;
pub const KP_DOT: u16 = 0x63;
pub const L_CTRL: u16 = 0xE0;
pub const L_SHIFT: u16 = 0xE1;

/// A basic action.
#[derive(Clone, Copy, Debug, PartialEq, Eq, Structural)]
pub enum Action {
    /// Send a keycode (HID usage ID).
    Key(u16),
    /// Hold modifiers (HID modifier bits).
    Modifier(u8),
    /// Activate a layer while held.
    LayerOn(u8),
    /// Toggle a layer.
    LayerToggle(u8),
    /// Switch the default layer.
    DefaultLayer(u8),
}

/// What a key position does.
#[derive(Clone, Copy, Debug, PartialEq, Eq, Structural)]
pub enum KeyAction {
    /// Nothing.
    No,
    /// Fall through to the next lower active layer.
    Transparent,
    /// One action, held while the key is held.
    Single(Action),
    /// One action, tapped on press.
    Tap(Action),
    /// The first action when tapped, the second when held.
    TapHold(Action, Action),
}

impl KeyAction {
    /// The action that sends `code` while the key is held.
    pub fn key(code: u16) -> (a: KeyAction)
        ensures
            a == KeyAction::Single(Action::Key(code)),
    {
        KeyAction::Single(Action::Key(code))
    }
}

} // verus!
