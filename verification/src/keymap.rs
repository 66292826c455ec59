//! The default keymap: four layers over the 5 x 7 logical matrix.
//!
//! | row\col | 0     | 1    | 2    | 3       | 4 | 5 | 6         |
//! |---------|-------|------|------|---------|---|---|-----------|
//! | 0       | Ins   | Home | PgUp | NumLock | - | * | /         |
//! | 1       | Del   | End  | PgDn | 7       | 8 | 9 | (none)    |
//! | 2       | (none)| (none)| (none)| 4     | 5 | 6 | + (2u)    |
//! | 3       | Shift | Up   | Ctrl | 1       | 2 | 3 | (none)    |
//! | 4       | Left  | Down | Right| (none)  | 0 | . | Enter (2u)|
//!
//! Layer 0 holds the table above; layers 1 to 3 are transparent. The (none) positions are
//! ignored by the matrix scan and hold `No` in every layer.

use vstd::prelude::*;
use crate::action::{self, Action, KeyAction};
use crate::matrix::{has_switch, scan_location, unused_position, ScanLocation};

verus! {

/// Logical matrix columns.
pub const COL: usize = 7;
/// Logical matrix rows.
pub const ROW: usize = 5;
/// Layers of the keymap.
pub const NUM_LAYER: usize = 4;

/// The keycode of layer 0 at position (`r`, `c`), for positions with a switch.
pub open spec fn layer0_code(r: int, c: int) -> u16 {
    if r == 0 {
        if c == 0 { action::INSERT } else if c == 1 { action::HOME } else if c == 2 { action::PAGE_UP } else if c == 3 { action::NUM_LOCK }
        else if c == 4 { action::KP_MINUS } else if c == 5 { action::KP_ASTERISK } else { action::KP_SLASH }
    } else if r == 1 {
        if c == 0 { action::DELETE } else if c == 1 { action::END } else if c == 2 { action::PAGE_DOWN } else if c == 3 { action::KP_7 }
        else if c == 4 { action::KP_8 } else { action::KP_9 }
    } else if r == 2 {
        if c == 3 { action::KP_4 } else if c == 4 { action::KP_5 } else if c == 5 { action::KP_6 } else { action::KP_PLUS }
    } else if r == 3 {
        if c == 0 { action::L_SHIFT } else if c == 1 { action::UP } else if c == 2 { action::L_CTRL } else if c == 3 { action::KP_1 }
        else if c == 4 { action::KP_2 } else { action::KP_3 }
    } else {
        if c == 0 { action::LEFT } else if c == 1 { action::DOWN } else if c == 2 { action::RIGHT } else if c == 4 { action::KP_0 }
        else if c == 5 { action::KP_DOT } else { action::KP_ENTER }
    }
}

/// The default action of layer `l` at position (`r`, `c`).
pub open spec fn default_action(l: int, r: int, c: int) -> KeyAction {
    if unused_position(r, c) {
        KeyAction::No
    } else if l == 0 {
        KeyAction::Single(Action::Key(layer0_code(r, c)))
    } else {
        KeyAction::Transparent
    }
}

/// A layer that falls through everywhere but at the positions without a switch.
fn transparent_layer() -> (layer: [[KeyAction; COL]; ROW])
    ensures
        forall|r: int, c: int|
            0 <= r < ROW && 0 <= c < COL ==> #[trigger] layer@[r]@[c] == default_action(1, r, c),
{
    let t = KeyAction::Transparent;
    let n = KeyAction::No;
    [
        [t, t, t, t, t, t, t],
        [t, t, t, t, t, t, n],
        [n, n, n, t, t, t, t],
        [t, t, t, t, t, t, n],
        [t, t, t, n, t, t, t],
    ]
}

/// The default keymap, indexed by layer, row and column.
pub fn get_default_keymap() -> (keymap: [[[KeyAction; COL]; ROW]; NUM_LAYER])
    ensures
        forall|l: int, r: int, c: int|
            0 <= l < NUM_LAYER && 0 <= r < ROW && 0 <= c < COL
                ==> #[trigger] keymap@[l]@[r]@[c] == default_action(l, r, c),
{
    let n = KeyAction::No;
    let layer0 = [
        [KeyAction::key(action::INSERT), KeyAction::key(action::HOME), KeyAction::key(action::PAGE_UP), KeyAction::key(action::NUM_LOCK),
            KeyAction::key(action::KP_MINUS), KeyAction::key(action::KP_ASTERISK), KeyAction::key(action::KP_SLASH)],
        [KeyAction::key(action::DELETE), KeyAction::key(action::END), KeyAction::key(action::PAGE_DOWN), KeyAction::key(action::KP_7),
            KeyAction::key(action::KP_8), KeyAction::key(action::KP_9), n],
        [n, n, n, KeyAction::key(action::KP_4), KeyAction::key(action::KP_5), KeyAction::key(action::KP_6), KeyAction::key(action::KP_PLUS)],
        [KeyAction::key(action::L_SHIFT), KeyAction::key(action::UP), KeyAction::key(action::L_CTRL), KeyAction::key(action::KP_1),
            KeyAction::key(action::KP_2), KeyAction::key(action::KP_3), n],
        [KeyAction::key(action::LEFT), KeyAction::key(action::DOWN), KeyAction::key(action::RIGHT), n, KeyAction::key(action::KP_0),
            KeyAction::key(action::KP_DOT), KeyAction::key(action::KP_ENTER)],
    ];
    let keymap = [layer0, transparent_layer(), transparent_layer(), transparent_layer()];
    assert forall|l: int, r: int, c: int|
        0 <= l < NUM_LAYER && 0 <= r < ROW && 0 <= c < COL
            implies #[trigger] keymap@[l]@[r]@[c] == default_action(l, r, c) by {
        if l > 0 {
            assert(default_action(l, r, c) == default_action(1, r, c));
        }
    }
    keymap
}

/// A default keymap cell is `No` exactly where the matrix scan ignores the position, in
/// every layer: the keymap and the scan map agree on which positions have no switch.
pub proof fn lemma_no_exactly_where_ignored(l: int, r: int, c: int)
    requires
        0 <= l < NUM_LAYER,
        0 <= r < ROW,
        0 <= c < COL,
    ensures
        (default_action(l, r, c) == KeyAction::No) == (scan_location(r, c) == ScanLocation::Ignore),
{
}

/// Layers 1 to 3 fall through to layer 0 at every position that has a switch.
pub proof fn lemma_upper_layers_transparent(l: int, r: int, c: int)
    requires
        1 <= l < NUM_LAYER,
        has_switch(r, c),
    ensures
        default_action(l, r, c) == KeyAction::Transparent,
{
}

/// In layer 0, no two switches send the same keycode.
pub proof fn lemma_layer0_codes_distinct(r1: int, c1: int, r2: int, c2: int)
    requires
        has_switch(r1, c1),
        has_switch(r2, c2),
        r1 != r2 || c1 != c2,
    ensures
        default_action(0, r1, c1) != default_action(0, r2, c2),
{
}

} // verus!
