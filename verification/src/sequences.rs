//! Sequence macros.
//!
//! "Tap key 1, then quickly tap key 2", or "hold key 1 and press key 2" (a roll), makes the
//! keyboard send the synthetic key event of position (OUT_ROW, n), a virtual row without a
//! physical key; the ordinary key handling then resolves whatever action is assigned there.
//!
//! Keys 1 and 2 are not fixed either: they are found by comparing actions with the virtual rows
//! TRIG1 (row 5) and TRIG2 (row 6) of keymap layer 0. Rows 5 to 7 are editable like any other
//! row, so triggers and outputs can be changed live:
//!   - column n is sequence n (at most COL sequences);
//!   - (5, n) is the action of key 1, (6, n) that of key 2, (7, n) the output;
//!   - a column whose TRIG1 or TRIG2 is `No` (or `Transparent`) is disabled.
//!
//! The engine is a state machine: `step` takes the state, one input (an event read from the
//! matrix, or the expiry of the state's deadline) and the current time, and returns the next
//! state and the events to send on, in order. Events that may start a sequence are held back
//! until it is clear whether the sequence fires; if it does not, they are sent on unchanged.

use vstd::prelude::*;
use crate::action::KeyAction;
use crate::event::{key_event, Event, KeyboardEvent, KeyboardEventPos};
use crate::keymap::COL;
use crate::timing::{duration_ticks_from_millis, SEQ_GAP_MS, SEQ_OVERLAP_MS, TAP_TERM_MS, TICKS_PER_MS};

verus! {

/// Rows of layer 0 that the engine reads: the five matrix rows and the virtual rows 5 to 7.
pub const LAYER0_ROWS: usize = 8;
/// Virtual row holding the action of key 1 of each sequence.
pub const TRIG1_ROW: u8 = 5;
/// Virtual row holding the action of key 2 of each sequence.
pub const TRIG2_ROW: u8 = 6;
/// Virtual row whose positions the synthetic events come from.
pub const OUT_ROW: u8 = 7;

/// Layer 0 of the keymap, as the engine reads it.
#[derive(Clone, Copy, Debug)]
pub struct Layer0 {
    pub cells: [[KeyAction; COL]; LAYER0_ROWS],
}

impl Layer0 {
    /// The action at (`r`, `c`).
    pub open spec fn at(self, r: int, c: int) -> KeyAction {
        self.cells@[r]@[c]
    }

    /// The action at (`row`, `col`).
    pub fn read_layer0(&self, row: u8, col: u8) -> (a: KeyAction)
        requires
            row < LAYER0_ROWS,
            col < COL,
        ensures
            a == self.at(row as int, col as int),
    {
        self.cells[row as usize][col as usize]
    }
}

/// Whether `a` counts as a configured trigger: `No` and `Transparent` mean "not set".
pub open spec fn trigger_set(a: KeyAction) -> bool {
    !(a is No) && !(a is Transparent)
}

/// Whether sequence `n` is enabled: both of its triggers are set.
pub open spec fn enabled(layer: Layer0, n: int) -> bool {
    trigger_set(layer.at(TRIG1_ROW as int, n)) && trigger_set(layer.at(TRIG2_ROW as int, n))
}

/// Whether a key with action `act` is key 1 of sequence `n`.
pub open spec fn starts_sequence(layer: Layer0, act: KeyAction, n: int) -> bool {
    enabled(layer, n) && act == layer.at(TRIG1_ROW as int, n)
}

/// The first sequence from column `n` on whose key 1 has action `act`.
pub open spec fn first_sequence_from(layer: Layer0, act: KeyAction, n: nat) -> Option<u8>
    decreases COL - n,
{
    if n >= COL {
        None
    } else if starts_sequence(layer, act, n as int) {
        Some(n as u8)
    } else {
        first_sequence_from(layer, act, n + 1)
    }
}

/// The sequence that a press of the key at (`r`, `c`) may start: the first enabled column
/// whose TRIG1 equals the key's action, if the key's action is set.
pub open spec fn key1_col(layer: Layer0, r: int, c: int) -> Option<u8> {
    let act = layer.at(r, c);
    if trigger_set(act) {
        first_sequence_from(layer, act, 0)
    } else {
        None
    }
}

/// Whether the key at (`r`, `c`) is key 2 of sequence `n`.
pub open spec fn is_key2(layer: Layer0, r: int, c: int, n: int) -> bool {
    let act = layer.at(r, c);
    trigger_set(act) && enabled(layer, n) && act == layer.at(TRIG2_ROW as int, n)
}

/// Row, column and press flag of a key event of the engine's rows; `None` for anything else.
pub open spec fn decoded(kb: KeyboardEvent) -> Option<(u8, u8, bool)> {
    match kb.pos {
        KeyboardEventPos::Key { row, col } => {
            if row < LAYER0_ROWS && col < COL {
                Some((row, col, kb.pressed))
            } else {
                None
            }
        },
        KeyboardEventPos::RotaryEncoder { .. } => None,
    }
}

/// Recovers (row, column, pressed) of a key event; `None` for events that are not at a key
/// position of the engine's rows (rotary encoders and the like).
pub fn decode_key_event(kb: KeyboardEvent) -> (d: Option<(u8, u8, bool)>)
    ensures
        d == decoded(kb),
{
    let mut row: u8 = 0;
    while row < LAYER0_ROWS as u8
        invariant
            row <= LAYER0_ROWS,
            forall|r: u8, c: u8, p: bool|
                r < row && c < COL ==> kb != #[trigger] key_event(r, c, p),
        decreases LAYER0_ROWS - row,
    {
        let mut col: u8 = 0;
        while col < COL as u8
            invariant
                row < LAYER0_ROWS,
                col <= COL,
                forall|r: u8, c: u8, p: bool|
                    ((r < row && c < COL) || (r == row && c < col)) ==> kb != #[trigger] key_event(
                        r,
                        c,
                        p,
                    ),
            decreases COL - col,
        {
            if kb == KeyboardEvent::key(row, col, true) {
                return Some((row, col, true));
            }
            if kb == KeyboardEvent::key(row, col, false) {
                return Some((row, col, false));
            }
            col += 1;
        }
        row += 1;
    }
    proof {
        if let KeyboardEventPos::Key { row, col } = kb.pos {
            if row < LAYER0_ROWS && col < COL {
                assert(kb == key_event(row, col, kb.pressed));
            }
        }
    }
    None
}

/// Whether `a` counts as a configured trigger (`No` and `Transparent` do not).
pub fn is_trigger_set(a: KeyAction) -> (b: bool)
    ensures
        b == trigger_set(a),
{
    match a {
        KeyAction::No | KeyAction::Transparent => false,
        _ => true,
    }
}

/// Whether sequence `n` is enabled: both TRIG1 and TRIG2 of column `n` are set.
pub fn seq_enabled(layer: &Layer0, n: u8) -> (b: bool)
    requires
        n < COL,
    ensures
        b == enabled(*layer, n as int),
{
    is_trigger_set(layer.read_layer0(TRIG1_ROW, n)) && is_trigger_set(layer.read_layer0(TRIG2_ROW, n))
}

/// The first enabled sequence whose key 1 has the action of the key at (`row`, `col`).
pub fn find_key1_col(layer: &Layer0, row: u8, col: u8) -> (n: Option<u8>)
    requires
        row < LAYER0_ROWS,
        col < COL,
    ensures
        n == key1_col(*layer, row as int, col as int),
{
    let act = layer.read_layer0(row, col);
    if !is_trigger_set(act) {
        return None;
    }
    let mut n: u8 = 0;
    while n < COL as u8
        invariant
            n <= COL,
            act == layer.at(row as int, col as int),
            trigger_set(act),
            first_sequence_from(*layer, act, 0) == first_sequence_from(*layer, act, n as nat),
        decreases COL - n,
    {
        if seq_enabled(layer, n) && act == layer.read_layer0(TRIG1_ROW, n) {
            return Some(n);
        }
        n += 1;
    }
    None
}

/// Whether the key at (`row`, `col`) is key 2 of sequence `seq_col`.
pub fn is_key2_of(layer: &Layer0, row: u8, col: u8, seq_col: u8) -> (b: bool)
    requires
        row < LAYER0_ROWS,
        col < COL,
        seq_col < COL,
    ensures
        b == is_key2(*layer, row as int, col as int, seq_col as int),
{
    let act = layer.read_layer0(row, col);
    is_trigger_set(act) && seq_enabled(layer, seq_col) && act == layer.read_layer0(TRIG2_ROW, seq_col)
}

/// State of the sequence engine.
#[derive(Clone, Copy, Debug, PartialEq, Eq)]
pub enum State {
    /// Nothing held back.
    Idle,
    /// Key 1 of sequence `seq_col` is down; its press is held back. Waiting both for key 2
    /// (a roll) and for the release of key 1 (a tap).
    Held1 {
        seq_col: u8,
        /// Position of key 1, to recognise its release.
        key1_pos: (u8, u8),
        /// The held-back press, sent on unchanged if the sequence does not fire.
        pending_press: KeyboardEvent,
        /// When key 1 went down (ticks), for the tap term.
        pressed_at: u64,
        /// `pressed_at` plus the overlap window.
        deadline: u64,
    },
    /// Key 1 was tapped; both of its events are held back until key 2 is pressed or the
    /// deadline passes.
    WaitSecond {
        seq_col: u8,
        tap_press: KeyboardEvent,
        tap_release: KeyboardEvent,
        deadline: u64,
    },
    /// The sequence fired after a tap; waiting for the release of key 2 (no timeout: holding
    /// key 2 holds the output).
    Emitting {
        seq_col: u8,
        key2_pos: (u8, u8),
    },
    /// The sequence fired during a roll. Key 1 is still down, so both releases are awaited, in
    /// either order: that of key 1 is dropped (its press was never sent), that of key 2 becomes
    /// the synthetic release.
    EmittingOverlap {
        seq_col: u8,
        key1_pos: (u8, u8),
        key2_pos: (u8, u8),
        key1_released: bool,
        key2_released: bool,
    },
}

/// What the engine reacts to.
#[derive(Clone, Copy, Debug, PartialEq, Eq, Structural)]
pub enum Input {
    /// An event read from the matrix.
    Event(Event),
    /// The deadline of the state passed before the next event arrived.
    Timeout,
}

/// What the engine sends on.
#[derive(Clone, Copy, Debug, PartialEq, Eq, Structural)]
pub enum Output {
    /// An event, unchanged.
    Forward(Event),
    /// The synthetic press or release of position (OUT_ROW, `col`).
    Emit { col: u8, pressed: bool },
}

/// The synthetic key event of sequence `col`.
pub open spec fn synthetic_event(col: u8, pressed: bool) -> KeyboardEvent {
    key_event(OUT_ROW, col, pressed)
}

impl Output {
    /// The event to send: the forwarded event, or the synthetic key event at (OUT_ROW, col).
    pub fn event(&self) -> (e: Event)
        ensures
            e == match *self {
                Output::Forward(f) => f,
                Output::Emit { col, pressed } => Event::Key(synthetic_event(col, pressed)),
            },
    {
        match *self {
            Output::Forward(f) => f,
            Output::Emit { col, pressed } => Event::Key(KeyboardEvent::key(OUT_ROW, col, pressed)),
        }
    }
}

/// Ticks of the tap term.
pub open spec fn tap_ticks() -> int {
    TAP_TERM_MS * TICKS_PER_MS
}

/// Ticks of the sequence gap.
pub open spec fn gap_ticks() -> int {
    SEQ_GAP_MS * TICKS_PER_MS
}

/// Ticks of the overlap window.
pub open spec fn overlap_ticks() -> int {
    SEQ_OVERLAP_MS * TICKS_PER_MS
}

/// Times at which every deadline the engine computes fits in a `u64` (adding a duration to
/// an instant past that point overflows, which panics).
pub open spec fn time_in_range(now: u64) -> bool {
    now + overlap_ticks() <= u64::MAX && now + gap_ticks() <= u64::MAX
}

impl State {
    /// Well-formedness: what every state produced by the engine satisfies.
    pub open spec fn wf(self) -> bool {
        match self {
            State::Idle => true,
            State::Held1 { seq_col, key1_pos, pending_press, pressed_at, deadline } => {
                &&& seq_col < COL
                &&& key1_pos.0 < LAYER0_ROWS && key1_pos.1 < COL
                &&& pending_press == key_event(key1_pos.0, key1_pos.1, true)
                &&& deadline == pressed_at + overlap_ticks()
            },
            State::WaitSecond { seq_col, tap_press, tap_release, .. } => {
                &&& seq_col < COL
                &&& tap_press.pressed
                &&& decoded(tap_press) is Some
                &&& tap_release == (KeyboardEvent { pressed: false, pos: tap_press.pos })
            },
            State::Emitting { seq_col, .. } => seq_col < COL,
            State::EmittingOverlap { seq_col, key1_released, key2_released, .. } => {
                seq_col < COL && !(key1_released && key2_released)
            },
        }
    }

    /// The instant at which the state times out, if it does.
    pub open spec fn spec_deadline(self) -> Option<u64> {
        match self {
            State::Held1 { deadline, .. } => Some(deadline),
            State::WaitSecond { deadline, .. } => Some(deadline),
            _ => None,
        }
    }

    /// The instant at which the state times out, if it does: the caller feeds
    /// `Input::Timeout` when it passes before the next event.
    pub fn deadline(&self) -> (d: Option<u64>)
        ensures
            d == self.spec_deadline(),
    {
        match *self {
            State::Held1 { deadline, .. } => Some(deadline),
            State::WaitSecond { deadline, .. } => Some(deadline),
            _ => None,
        }
    }
}

/// The state right after key 1 of sequence `seq_col` went down at `now`.
pub open spec fn held1_state(seq_col: u8, key1_pos: (u8, u8), pending_press: KeyboardEvent, now: u64) -> State {
    State::Held1 {
        seq_col,
        key1_pos,
        pending_press,
        pressed_at: now,
        deadline: (now + overlap_ticks()) as u64,
    }
}

/// Holds back the press of key 1 of sequence `seq_col`, which went down at `now`.
pub fn held1(seq_col: u8, key1_pos: (u8, u8), pending_press: KeyboardEvent, now: u64) -> (s: State)
    requires
        now + overlap_ticks() <= u64::MAX,
    ensures
        s == held1_state(seq_col, key1_pos, pending_press, now),
{
    let overlap = duration_ticks_from_millis(SEQ_OVERLAP_MS);
    State::Held1 { seq_col, key1_pos, pending_press, pressed_at: now, deadline: now + overlap }
}

/// Forwarding a held-back key event.
pub open spec fn fwd(kb: KeyboardEvent) -> Output {
    Output::Forward(Event::Key(kb))
}

/// The reaction of the engine in state `s` to key event `kb` at time `now`.
pub open spec fn next_key(s: State, kb: KeyboardEvent, now: u64, layer: Layer0) -> (State, Seq<Output>) {
    let e = Event::Key(kb);
    let d = decoded(kb);
    match s {
        State::Idle => match d {
            Some((r, c, true)) => match key1_col(layer, r as int, c as int) {
                // key 1 of a sequence: hold its press back
                Some(n) => (held1_state(n, (r, c), kb, now), seq![]),
                None => (State::Idle, seq![Output::Forward(e)]),
            },
            _ => (State::Idle, seq![Output::Forward(e)]),
        },
        State::Held1 { seq_col, key1_pos, pending_press, pressed_at, deadline } => match d {
            Some((r, c, true)) => {
                if is_key2(layer, r as int, c as int, seq_col as int) {
                    // key 2 during the roll: fire, dropping the press of key 1
                    (
                        State::EmittingOverlap {
                            seq_col,
                            key1_pos,
                            key2_pos: (r, c),
                            key1_released: false,
                            key2_released: false,
                        },
                        seq![Output::Emit { col: seq_col, pressed: true }],
                    )
                } else {
                    match key1_col(layer, r as int, c as int) {
                        // key 1 of a sequence: send the held press on, hold the new one
                        Some(m) => (held1_state(m, (r, c), kb, now), seq![fwd(pending_press)]),
                        None => (State::Idle, seq![fwd(pending_press), Output::Forward(e)]),
                    }
                }
            },
            Some((r, c, false)) => {
                if r == key1_pos.0 && c == key1_pos.1 {
                    if now < pressed_at + tap_ticks() {
                        // a tap: hold both events back and wait for key 2
                        (
                            State::WaitSecond {
                                seq_col,
                                tap_press: pending_press,
                                tap_release: kb,
                                deadline: (now + gap_ticks()) as u64,
                            },
                            seq![],
                        )
                    } else {
                        // released too late for a tap
                        (State::Idle, seq![fwd(pending_press), fwd(kb)])
                    }
                } else {
                    (State::Idle, seq![fwd(pending_press), Output::Forward(e)])
                }
            },
            None => (s, seq![Output::Forward(e)]),
        },
        State::WaitSecond { seq_col, tap_press, tap_release, deadline } => match d {
            Some((r, c, true)) => {
                if is_key2(layer, r as int, c as int, seq_col as int) {
                    // key 2 after the tap: fire, dropping the tap of key 1
                    (
                        State::Emitting { seq_col, key2_pos: (r, c) },
                        seq![Output::Emit { col: seq_col, pressed: true }],
                    )
                } else {
                    match key1_col(layer, r as int, c as int) {
                        Some(m) => (held1_state(m, (r, c), kb, now), seq![fwd(tap_press), fwd(tap_release)]),
                        None => (State::Idle, seq![fwd(tap_press), fwd(tap_release), Output::Forward(e)]),
                    }
                }
            },
            Some(_) => (State::Idle, seq![fwd(tap_press), fwd(tap_release), Output::Forward(e)]),
            None => (s, seq![Output::Forward(e)]),
        },
        State::Emitting { seq_col, key2_pos } => match d {
            Some((r, c, p)) => {
                if !p && r == key2_pos.0 && c == key2_pos.1 {
                    (State::Idle, seq![Output::Emit { col: seq_col, pressed: false }])
                } else {
                    (s, seq![Output::Forward(e)])
                }
            },
            None => (s, seq![Output::Forward(e)]),
        },
        State::EmittingOverlap { seq_col, key1_pos, key2_pos, key1_released, key2_released } => match d {
            Some((r, c, p)) => {
                if !p && r == key1_pos.0 && c == key1_pos.1 && !key1_released {
                    // the release of key 1 is dropped
                    if key2_released {
                        (State::Idle, seq![])
                    } else {
                        (
                            State::EmittingOverlap { seq_col, key1_pos, key2_pos, key1_released: true, key2_released },
                            seq![],
                        )
                    }
                } else if !p && r == key2_pos.0 && c == key2_pos.1 && !key2_released {
                    if key1_released {
                        (State::Idle, seq![Output::Emit { col: seq_col, pressed: false }])
                    } else {
                        (
                            State::EmittingOverlap { seq_col, key1_pos, key2_pos, key1_released, key2_released: true },
                            seq![Output::Emit { col: seq_col, pressed: false }],
                        )
                    }
                } else {
                    (s, seq![Output::Forward(e)])
                }
            },
            None => (s, seq![Output::Forward(e)]),
        },
    }
}

/// The reaction of the engine in state `s` to `input` at time `now`, reading `layer`: the next
/// state and the events to send on, in order.
pub open spec fn next(s: State, input: Input, now: u64, layer: Layer0) -> (State, Seq<Output>) {
    match input {
        Input::Timeout => match s {
            // the roll window passed: key 1 is an ordinary held key
            State::Held1 { pending_press, .. } => (State::Idle, seq![fwd(pending_press)]),
            // no key 2 in time: send the tap on
            State::WaitSecond { tap_press, tap_release, .. } => (
                State::Idle,
                seq![fwd(tap_press), fwd(tap_release)],
            ),
            _ => (s, seq![]),
        },
        Input::Event(e) => match e {
            Event::Key(kb) => next_key(s, kb, now, layer),
            Event::Other => (s, seq![Output::Forward(e)]),
        },
    }
}

/// Whether the step from `s` on `input` at `now` adds a duration to the current time: when
/// key 1 of a sequence goes down (a new overlap deadline) and when key 1 is released within the
/// tap term (a new gap deadline). Only these steps need `time_in_range(now)`.
pub open spec fn adds_duration(s: State, input: Input, now: u64, layer: Layer0) -> bool {
    match input {
        Input::Event(Event::Key(kb)) => match decoded(kb) {
            Some((r, c, p)) => match s {
                State::Idle => p && key1_col(layer, r as int, c as int) is Some,
                State::Held1 { seq_col, key1_pos, pressed_at, .. } => {
                    if p {
                        !is_key2(layer, r as int, c as int, seq_col as int) && key1_col(layer, r as int, c as int) is Some
                    } else {
                        r == key1_pos.0 && c == key1_pos.1 && now < pressed_at + tap_ticks()
                    }
                },
                State::WaitSecond { seq_col, .. } => {
                    p && !is_key2(layer, r as int, c as int, seq_col as int) && key1_col(layer, r as int, c as int) is Some
                },
                _ => false,
            },
            None => false,
        },
        _ => false,
    }
}

/// Whether the step from `state` on `input` at `now` adds a duration to `now` (see
/// `adds_duration`); a caller tests it, with `time_in_range`, before calling `step`.
pub fn step_adds_duration(state: &State, input: &Input, now: u64, layer: &Layer0) -> (b: bool)
    requires
        state.wf(),
    ensures
        b == adds_duration(*state, *input, now, *layer),
{
    let kb = match *input {
        Input::Event(Event::Key(kb)) => kb,
        _ => {
            return false;
        },
    };
    let (r, c, p) = match decode_key_event(kb) {
        Some(d) => d,
        None => {
            return false;
        },
    };
    match *state {
        State::Idle => p && find_key1_col(layer, r, c).is_some(),
        State::Held1 { seq_col, key1_pos, pressed_at, .. } => {
            if p {
                !is_key2_of(layer, r, c, seq_col) && find_key1_col(layer, r, c).is_some()
            } else {
                r == key1_pos.0 && c == key1_pos.1 && now < pressed_at + duration_ticks_from_millis(TAP_TERM_MS)
            }
        },
        State::WaitSecond { seq_col, .. } => {
            p && !is_key2_of(layer, r, c, seq_col) && find_key1_col(layer, r, c).is_some()
        },
        _ => false,
    }
}

/// Whether `now` leaves room for every duration the engine adds to it.
pub fn time_fits(now: u64) -> (b: bool)
    ensures
        b == time_in_range(now),
{
    let overlap = duration_ticks_from_millis(SEQ_OVERLAP_MS);
    let gap = duration_ticks_from_millis(SEQ_GAP_MS);
    now <= u64::MAX - overlap && now <= u64::MAX - gap
}

/// One step of the engine: the reaction in `state` to `input` at time `now` (ticks), reading
/// layer 0 of the keymap. Returns the next state and the events to send on, in order.
/// Adding a duration to an instant near the end of the tick range overflows, which panics;
/// steps that add one require `now` to leave room for it.
pub fn step(state: State, input: Input, now: u64, layer: &Layer0) -> (res: (State, Vec<Output>))
    requires
        state.wf(),
        adds_duration(state, input, now, *layer) ==> time_in_range(now),
    ensures
        (res.0, res.1@) == next(state, input, now, *layer),
{
    let e = match input {
        Input::Timeout => {
            return match state {
                State::Held1 { pending_press, .. } => (State::Idle, vec![Output::Forward(Event::Key(pending_press))]),
                State::WaitSecond { tap_press, tap_release, .. } => (
                    State::Idle,
                    vec![Output::Forward(Event::Key(tap_press)), Output::Forward(Event::Key(tap_release))],
                ),
                _ => (state, Vec::new()),
            };
        },
        Input::Event(e) => e,
    };
    let kb = match e {
        Event::Key(kb) => kb,
        Event::Other => {
            return (state, vec![Output::Forward(e)]);
        },
    };
    let d = decode_key_event(kb);
    match state {
        State::Idle => {
            if let Some((r, c, true)) = d {
                if let Some(n) = find_key1_col(layer, r, c) {
                    return (held1(n, (r, c), kb, now), Vec::new());
                }
            }
            (State::Idle, vec![Output::Forward(e)])
        },
        State::Held1 { seq_col, key1_pos, pending_press, pressed_at, deadline } => match d {
            Some((r, c, true)) => {
                if is_key2_of(layer, r, c, seq_col) {
                    (
                        State::EmittingOverlap {
                            seq_col,
                            key1_pos,
                            key2_pos: (r, c),
                            key1_released: false,
                            key2_released: false,
                        },
                        vec![Output::Emit { col: seq_col, pressed: true }],
                    )
                } else if let Some(m) = find_key1_col(layer, r, c) {
                    (held1(m, (r, c), kb, now), vec![Output::Forward(Event::Key(pending_press))])
                } else {
                    (State::Idle, vec![Output::Forward(Event::Key(pending_press)), Output::Forward(e)])
                }
            },
            Some((r, c, false)) => {
                if r == key1_pos.0 && c == key1_pos.1 {
                    if now < pressed_at + duration_ticks_from_millis(TAP_TERM_MS) {
                        (
                            State::WaitSecond {
                                seq_col,
                                tap_press: pending_press,
                                tap_release: kb,
                                deadline: now + duration_ticks_from_millis(SEQ_GAP_MS),
                            },
                            Vec::new(),
                        )
                    } else {
                        (
                            State::Idle,
                            vec![Output::Forward(Event::Key(pending_press)), Output::Forward(Event::Key(kb))],
                        )
                    }
                } else {
                    (State::Idle, vec![Output::Forward(Event::Key(pending_press)), Output::Forward(e)])
                }
            },
            None => (state, vec![Output::Forward(e)]),
        },
        State::WaitSecond { seq_col, tap_press, tap_release, deadline } => match d {
            Some((r, c, true)) => {
                if is_key2_of(layer, r, c, seq_col) {
                    (State::Emitting { seq_col, key2_pos: (r, c) }, vec![Output::Emit { col: seq_col, pressed: true }])
                } else if let Some(m) = find_key1_col(layer, r, c) {
                    (
                        held1(m, (r, c), kb, now),
                        vec![Output::Forward(Event::Key(tap_press)), Output::Forward(Event::Key(tap_release))],
                    )
                } else {
                    (
                        State::Idle,
                        vec![
                            Output::Forward(Event::Key(tap_press)),
                            Output::Forward(Event::Key(tap_release)),
                            Output::Forward(e),
                        ],
                    )
                }
            },
            Some(_) => (
                State::Idle,
                vec![
                    Output::Forward(Event::Key(tap_press)),
                    Output::Forward(Event::Key(tap_release)),
                    Output::Forward(e),
                ],
            ),
            None => (state, vec![Output::Forward(e)]),
        },
        State::Emitting { seq_col, key2_pos } => match d {
            Some((r, c, p)) => {
                if !p && r == key2_pos.0 && c == key2_pos.1 {
                    (State::Idle, vec![Output::Emit { col: seq_col, pressed: false }])
                } else {
                    (state, vec![Output::Forward(e)])
                }
            },
            None => (state, vec![Output::Forward(e)]),
        },
        State::EmittingOverlap { seq_col, key1_pos, key2_pos, key1_released, key2_released } => match d {
            Some((r, c, p)) => {
                if !p && r == key1_pos.0 && c == key1_pos.1 && !key1_released {
                    if key2_released {
                        (State::Idle, Vec::new())
                    } else {
                        (
                            State::EmittingOverlap { seq_col, key1_pos, key2_pos, key1_released: true, key2_released },
                            Vec::new(),
                        )
                    }
                } else if !p && r == key2_pos.0 && c == key2_pos.1 && !key2_released {
                    if key1_released {
                        (State::Idle, vec![Output::Emit { col: seq_col, pressed: false }])
                    } else {
                        (
                            State::EmittingOverlap { seq_col, key1_pos, key2_pos, key1_released, key2_released: true },
                            vec![Output::Emit { col: seq_col, pressed: false }],
                        )
                    }
                } else {
                    (state, vec![Output::Forward(e)])
                }
            },
            None => (state, vec![Output::Forward(e)]),
        },
    }
}

} // verus!
