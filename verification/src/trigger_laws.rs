//! What the trigger lookup and the states that a step creates mean, stated over the cells of
//! layer 0 and the inputs themselves.
//!
//! Here a cell "is set" when it holds neither `No` nor `Transparent`; the TRIG1 and TRIG2 cells
//! of sequence `n` are layer 0 at (5, n) and (6, n).

use vstd::prelude::*;
use crate::action::KeyAction;
use crate::event::{key_event, Event, KeyboardEvent, KeyboardEventPos};
use crate::keymap::COL;
use crate::sequence_laws::lemma_key1_col_is_first_match;
use crate::sequences::{
    adds_duration, decoded, enabled, synthetic_event, is_key2, key1_col, next, time_in_range, trigger_set, Input, Layer0,
    Output, State, LAYER0_ROWS,
};
use crate::timing::{SEQ_GAP_MS, SEQ_OVERLAP_MS, TAP_TERM_MS, TICKS_PER_MS};

verus! {

/// An action counts as a set trigger exactly when it is neither `No` nor `Transparent`; every
/// other action (keys, taps, tap-holds, layer actions, ...) is a set trigger.
pub proof fn lemma_trigger_set_exactly(a: KeyAction)
    ensures
        trigger_set(a) == (!(a is No) && !(a is Transparent)),
{
}

/// Sequence `n` is enabled exactly when both its TRIG1 and its TRIG2 cell are set.
pub proof fn lemma_enabled_exactly(layer: Layer0, n: int)
    ensures
        enabled(layer, n) == (!(layer.cells@[5]@[n] is No) && !(layer.cells@[5]@[n] is Transparent)
            && !(layer.cells@[6]@[n] is No) && !(layer.cells@[6]@[n] is Transparent)),
{
}

/// The key at (`r`, `c`) is key 2 of sequence `n` exactly when its action is set, sequence `n`
/// is enabled and the action equals the TRIG2 cell of `n`; nothing else matters (in
/// particular key 2 may have the same action as key 1, a double tap).
pub proof fn lemma_key2_exactly(layer: Layer0, r: int, c: int, n: int)
    ensures
        is_key2(layer, r, c, n) == ({
            let act = layer.cells@[r]@[c];
            let t1 = layer.cells@[5]@[n];
            let t2 = layer.cells@[6]@[n];
            &&& !(act is No) && !(act is Transparent)
            &&& !(t1 is No) && !(t1 is Transparent)
            &&& !(t2 is No) && !(t2 is Transparent)
            &&& act == t2
        }),
{
}

spec fn raw(layer: Layer0, act: KeyAction, m: int) -> bool {
    layer.cells@[5]@[m] == act && !(layer.cells@[6]@[m] is No) && !(layer.cells@[6]@[m] is Transparent)
}

/// A press of the key at (`r`, `c`) starts sequence `n` exactly when the key's action is set,
/// equals the TRIG1 cell of `n`, the TRIG2 cell of `n` is set, and no column before `n` has
/// the same TRIG1 and a set TRIG2: the first enabled matching column wins.
pub proof fn lemma_key1_col_exactly(layer: Layer0, r: int, c: int, n: u8)
    ensures
        (key1_col(layer, r, c) == Some(n)) == ({
            let act = layer.cells@[r]@[c];
            &&& n < COL
            &&& !(act is No) && !(act is Transparent)
            &&& layer.cells@[5]@[n as int] == act
            &&& !(layer.cells@[6]@[n as int] is No) && !(layer.cells@[6]@[n as int] is Transparent)
            &&& forall|m: int|
                0 <= m < n ==> !(layer.cells@[5]@[m] == act && !(layer.cells@[6]@[m] is No) && !(
                layer.cells@[6]@[m] is Transparent))
        }),
{
    lemma_key1_col_is_first_match(layer, r, c);
    let act = layer.cells@[r]@[c];
    assert(layer.at(r, c) == act);
    assert forall|m: int| 0 <= m < COL && !(act is No) && !(act is Transparent) implies #[trigger] raw(layer, act, m)
        == crate::sequences::starts_sequence(layer, act, m) by {
        assert(layer.at(5, m) == layer.cells@[5]@[m]);
        assert(layer.at(6, m) == layer.cells@[6]@[m]);
    }
    match key1_col(layer, r, c) {
        Some(k) => {
            if k == n {
                assert forall|m: int| 0 <= m < n implies !(layer.cells@[5]@[m] == act && !(layer.cells@[6]@[m] is No)
                    && !(layer.cells@[6]@[m] is Transparent)) by {
                    assert(!crate::sequences::starts_sequence(layer, act, m));
                    assert(raw(layer, act, m) == crate::sequences::starts_sequence(layer, act, m));
                }
                assert(crate::sequences::starts_sequence(layer, act, n as int));
                assert(layer.at(5, n as int) == layer.cells@[5]@[n as int]);
                assert(layer.at(6, n as int) == layer.cells@[6]@[n as int]);
            } else if k < n {
                assert(crate::sequences::starts_sequence(layer, act, k as int));
                assert(raw(layer, act, k as int));
            } else {
                if n < COL && !(act is No) && !(act is Transparent) && raw(layer, act, n as int) {
                    assert(!crate::sequences::starts_sequence(layer, act, n as int));
                }
            }
        },
        None => {
            if n < COL && !(act is No) && !(act is Transparent) && raw(layer, act, n as int) {
                assert(!crate::sequences::starts_sequence(layer, act, n as int));
            }
        },
    }
}

/// Every state that holds back a press, and that a step creates (rather than keeps), holds the
/// press just read: the key at `key1_pos`, pressed at `now`, with the overlap window counted
/// from `now`; its sequence is the first enabled column whose TRIG1 equals the key's action.
pub proof fn lemma_new_held_press(s: State, input: Input, now: u64, layer: Layer0)
    requires
        s.wf(),
        adds_duration(s, input, now, layer) ==> time_in_range(now),
    ensures
        ({
            let s2 = next(s, input, now, layer).0;
            match s2 {
                State::Held1 { seq_col, key1_pos, pending_press, pressed_at, deadline } => s2 != s ==> {
                    let act = layer.cells@[key1_pos.0 as int]@[key1_pos.1 as int];
                    &&& input == Input::Event(Event::Key(pending_press))
                    &&& pending_press == key_event(key1_pos.0, key1_pos.1, true)
                    &&& key1_pos.0 < LAYER0_ROWS && key1_pos.1 < COL
                    &&& pressed_at == now
                    &&& deadline == now + SEQ_OVERLAP_MS * TICKS_PER_MS
                    &&& seq_col < COL
                    &&& !(act is No) && !(act is Transparent)
                    &&& layer.cells@[5]@[seq_col as int] == act
                    &&& !(layer.cells@[6]@[seq_col as int] is No) && !(layer.cells@[6]@[seq_col as int] is Transparent)
                    &&& forall|m: int|
                        0 <= m < seq_col ==> !(layer.cells@[5]@[m] == act && !(layer.cells@[6]@[m] is No)
                            && !(layer.cells@[6]@[m] is Transparent))
                },
                _ => true,
            }
        }),
{
    let s2 = next(s, input, now, layer).0;
    if let Input::Event(Event::Key(kb)) = input {
        if let Some((r, c, p)) = decoded(kb) {
            assert(kb == key_event(r, c, p));
            if let Some(n) = key1_col(layer, r as int, c as int) {
                lemma_key1_col_exactly(layer, r as int, c as int, n);
            }
        }
    }
}

/// A tap is a release of key 1 within the tap term counted from its press: in a state holding
/// key 1's press, its release at `now` makes the state that waits for key 2, with the gap
/// counted from `now`, exactly when `now` is less than the tap term after the press; otherwise
/// both events are sent on and the engine is idle.
pub proof fn lemma_tap_term_from_press(
    seq_col: u8,
    key1_pos: (u8, u8),
    pending_press: KeyboardEvent,
    pressed_at: u64,
    deadline: u64,
    now: u64,
    layer: Layer0,
)
    requires
        (State::Held1 { seq_col, key1_pos, pending_press, pressed_at, deadline }).wf(),
        time_in_range(now),
    ensures
        ({
            let s = State::Held1 { seq_col, key1_pos, pending_press, pressed_at, deadline };
            let release = key_event(key1_pos.0, key1_pos.1, false);
            let (s2, outs) = next(s, Input::Event(Event::Key(release)), now, layer);
            if now < pressed_at + TAP_TERM_MS * TICKS_PER_MS {
                &&& s2 == State::WaitSecond {
                    seq_col,
                    tap_press: pending_press,
                    tap_release: release,
                    deadline: (now + SEQ_GAP_MS * TICKS_PER_MS) as u64,
                }
                &&& outs =~= seq![]
            } else {
                &&& s2 == State::Idle
                &&& outs =~= seq![Output::Forward(Event::Key(pending_press)), Output::Forward(Event::Key(release))]
            }
        }),
{
}

/// Every state that waits for key 2 after a tap, and that a step creates, comes from the state
/// holding key 1 of the same sequence, on the release of that key within the tap term; its
/// deadline is the gap counted from the release.
pub proof fn lemma_new_wait_after_tap(s: State, input: Input, now: u64, layer: Layer0)
    requires
        s.wf(),
        adds_duration(s, input, now, layer) ==> time_in_range(now),
    ensures
        ({
            let s2 = next(s, input, now, layer).0;
            match s2 {
                State::WaitSecond { seq_col, tap_press, tap_release, deadline } => s2 != s ==> {
                    &&& s matches State::Held1 { seq_col: c1, key1_pos, pending_press, pressed_at, .. } && {
                        &&& c1 == seq_col
                        &&& tap_press == pending_press
                        &&& tap_release == key_event(key1_pos.0, key1_pos.1, false)
                        &&& now < pressed_at + TAP_TERM_MS * TICKS_PER_MS
                    }
                    &&& input == Input::Event(Event::Key(tap_release))
                    &&& deadline == now + SEQ_GAP_MS * TICKS_PER_MS
                },
                _ => true,
            }
        }),
{
    if let Input::Event(Event::Key(kb)) = input {
        if let Some((r, c, p)) = decoded(kb) {
            assert(kb == key_event(r, c, p));
        }
    }
}

/// Every state in which a sequence has fired, and that a step creates, continues the sequence
/// of the state before it: a roll (`EmittingOverlap`) comes from the state holding key 1 of the
/// same sequence, a tap sequence (`Emitting`) from the state waiting after the tap; in both the
/// input is the press of key 2, whose action is set and equals the TRIG2 cell of the sequence.
pub proof fn lemma_new_firing_state(s: State, input: Input, now: u64, layer: Layer0)
    requires
        s.wf(),
    ensures
        ({
            let s2 = next(s, input, now, layer).0;
            match s2 {
                State::EmittingOverlap { seq_col, key1_pos, key2_pos, key1_released, key2_released } => (
                s2 != s && !key1_released && !key2_released) ==> {
                    let act = layer.cells@[key2_pos.0 as int]@[key2_pos.1 as int];
                    &&& s matches State::Held1 { seq_col: c1, key1_pos: k1, .. } && c1 == seq_col && k1 == key1_pos
                    &&& input == Input::Event(Event::Key(key_event(key2_pos.0, key2_pos.1, true)))
                    &&& !(act is No) && !(act is Transparent)
                    &&& act == layer.cells@[6]@[seq_col as int]
                },
                State::Emitting { seq_col, key2_pos } => s2 != s ==> {
                    let act = layer.cells@[key2_pos.0 as int]@[key2_pos.1 as int];
                    &&& s matches State::WaitSecond { seq_col: c1, .. } && c1 == seq_col
                    &&& input == Input::Event(Event::Key(key_event(key2_pos.0, key2_pos.1, true)))
                    &&& !(act is No) && !(act is Transparent)
                    &&& act == layer.cells@[6]@[seq_col as int]
                },
                _ => true,
            }
        }),
{
    if let Input::Event(Event::Key(kb)) = input {
        if let Some((r, c, p)) = decoded(kb) {
            assert(kb == key_event(r, c, p));
        }
    }
}

/// Decoding recovers exactly the key events of the engine's rows (rows 0 to 7, columns 0 to
/// 6): their row, column and press flag; every other event decodes to nothing.
pub proof fn lemma_decode_exactly(kb: KeyboardEvent, r: u8, c: u8, p: bool)
    ensures
        (decoded(kb) == Some((r, c, p))) == (kb == (KeyboardEvent {
            pressed: p,
            pos: KeyboardEventPos::Key { row: r, col: c },
        }) && r < 8 && c < 7),
        decoded(kb) is None == !(kb.pos matches KeyboardEventPos::Key { row, col } && row < 8 && col < 7),
{
}

/// The synthetic event of sequence `col` is the key event at row 7, column `col`.
pub proof fn lemma_synthetic_event_position(col: u8, pressed: bool)
    ensures
        synthetic_event(col, pressed) == (KeyboardEvent {
            pressed,
            pos: KeyboardEventPos::Key { row: 7, col },
        }),
{
}

/// A step adds a duration to the time exactly when it creates a state with a new deadline: a
/// held key 1 (overlap window) or a tap waiting for key 2 (gap).
pub proof fn lemma_adds_duration_exactly(s: State, input: Input, now: u64, layer: Layer0)
    requires
        s.wf(),
    ensures
        adds_duration(s, input, now, layer) ==> (next(s, input, now, layer).0 is Held1 || next(
            s,
            input,
            now,
            layer,
        ).0 is WaitSecond),
        (next(s, input, now, layer).0 != s && next(s, input, now, layer).0.spec_deadline() is Some) ==> adds_duration(
            s,
            input,
            now,
            layer,
        ),
{
    if let Input::Event(Event::Key(kb)) = input {
        if let Some((r, c, p)) = decoded(kb) {
            assert(kb == key_event(r, c, p));
        }
    }
}

} // verus!
