//! Properties of the sequence engine that hold across all inputs.

use vstd::prelude::*;
use crate::action::KeyAction;
use crate::event::{key_event, Event};
use crate::keymap::COL;
use crate::sequences::{
    decoded, enabled, first_sequence_from, is_key2, key1_col, next, starts_sequence, tap_ticks,
    adds_duration, time_in_range, trigger_set, Input, Layer0, Output, State, LAYER0_ROWS,
};

verus! {

/// The events the state holds back, oldest first.
pub open spec fn held_back(s: State) -> Seq<Event> {
    match s {
        State::Held1 { pending_press, .. } => seq![Event::Key(pending_press)],
        State::WaitSecond { tap_press, tap_release, .. } => seq![Event::Key(tap_press), Event::Key(tap_release)],
        _ => seq![],
    }
}

/// The events that `outs` forwards, in order.
pub open spec fn forwarded(outs: Seq<Output>) -> Seq<Event>
    decreases outs.len(),
{
    if outs.len() == 0 {
        seq![]
    } else {
        let rest = forwarded(outs.drop_last());
        match outs.last() {
            Output::Forward(e) => rest.push(e),
            Output::Emit { .. } => rest,
        }
    }
}

/// The synthetic events that `outs` sends, as (sequence column, pressed), in order.
pub open spec fn emitted(outs: Seq<Output>) -> Seq<(u8, bool)>
    decreases outs.len(),
{
    if outs.len() == 0 {
        seq![]
    } else {
        let rest = emitted(outs.drop_last());
        match outs.last() {
            Output::Forward(_) => rest,
            Output::Emit { col, pressed } => rest.push((col, pressed)),
        }
    }
}

/// The sequence whose synthetic key is down in state `s`.
pub open spec fn synthetic_down(s: State) -> Option<u8> {
    match s {
        State::Emitting { seq_col, .. } => Some(seq_col),
        State::EmittingOverlap { seq_col, key2_released, .. } => {
            if key2_released {
                None
            } else {
                Some(seq_col)
            }
        },
        _ => None,
    }
}

/// The events forwarded by one output.
pub open spec fn forwarded_by(o: Output) -> Seq<Event> {
    match o {
        Output::Forward(e) => seq![e],
        Output::Emit { .. } => seq![],
    }
}

/// The synthetic events of one output.
pub open spec fn emitted_by(o: Output) -> Seq<(u8, bool)> {
    match o {
        Output::Forward(_) => seq![],
        Output::Emit { col, pressed } => seq![(col, pressed)],
    }
}

/// `forwarded` and `emitted` of outputs of up to three elements, element by element.
pub proof fn lemma_output_shapes(outs: Seq<Output>)
    ensures
        outs.len() == 0 ==> forwarded(outs) =~= seq![] && emitted(outs) =~= seq![],
        outs.len() == 1 ==> forwarded(outs) =~= forwarded_by(outs[0]) && emitted(outs) =~= emitted_by(
            outs[0],
        ),
        outs.len() == 2 ==> forwarded(outs) =~= forwarded_by(outs[0]) + forwarded_by(outs[1])
            && emitted(outs) =~= emitted_by(outs[0]) + emitted_by(outs[1]),
        outs.len() == 3 ==> forwarded(outs) =~= forwarded_by(outs[0]) + forwarded_by(outs[1])
            + forwarded_by(outs[2]) && emitted(outs) =~= emitted_by(outs[0]) + emitted_by(outs[1])
            + emitted_by(outs[2]),
{
    reveal_with_fuel(forwarded, 4);
    reveal_with_fuel(emitted, 4);
    if outs.len() == 1 {
        assert(outs.drop_last() =~= seq![]);
    } else if outs.len() == 2 {
        assert(outs.drop_last().drop_last() =~= seq![]);
    } else if outs.len() == 3 {
        assert(outs.drop_last().drop_last().drop_last() =~= seq![]);
    }
}

/// Whether `input` in state `s` is the press of key 2 of sequence `n` while key 1 of `n` is
/// held or was just tapped.
pub open spec fn fires(s: State, input: Input, layer: Layer0, n: u8) -> bool {
    &&& input matches Input::Event(Event::Key(kb))
    &&& decoded(kb) matches Some((r, c, true))
    &&& is_key2(layer, r as int, c as int, n as int)
    &&& (s matches State::Held1 { seq_col, .. } && seq_col == n) || (s matches State::WaitSecond {
        seq_col,
        ..
    } && seq_col == n)
}

/// Every step keeps the engine's state well formed.
pub proof fn lemma_step_preserves_wf(s: State, input: Input, now: u64, layer: Layer0)
    requires
        s.wf(),
        adds_duration(s, input, now, layer) ==> time_in_range(now),
    ensures
        next(s, input, now, layer).0.wf(),
{
    if let Input::Event(Event::Key(kb)) = input {
        if let Some((r, c, p)) = decoded(kb) {
            lemma_key1_col_is_first_match(layer, r as int, c as int);
            assert(kb == key_event(r, c, p));
        }
    }
}

/// A press of a key starts sequence `n` exactly when `n` is the first enabled column whose
/// TRIG1 equals the key's (set) action.
pub proof fn lemma_key1_col_is_first_match(layer: Layer0, r: int, c: int)
    ensures
        key1_col(layer, r, c) matches Some(n) ==> {
            &&& n < COL
            &&& trigger_set(layer.at(r, c))
            &&& starts_sequence(layer, layer.at(r, c), n as int)
            &&& forall|m: int| 0 <= m < n ==> !starts_sequence(layer, layer.at(r, c), m)
        },
        key1_col(layer, r, c) is None ==> !trigger_set(layer.at(r, c)) || forall|m: int|
            0 <= m < COL ==> !starts_sequence(layer, layer.at(r, c), m),
{
    lemma_first_sequence_from(layer, layer.at(r, c), 0);
}

proof fn lemma_first_sequence_from(layer: Layer0, act: KeyAction, k: nat)
    ensures
        first_sequence_from(layer, act, k) matches Some(n) ==> {
            &&& k <= n < COL
            &&& starts_sequence(layer, act, n as int)
            &&& forall|m: int| k <= m < n ==> !starts_sequence(layer, act, m)
        },
        first_sequence_from(layer, act, k) is None ==> forall|m: int|
            k <= m < COL ==> !starts_sequence(layer, act, m),
    decreases COL - k,
{
    if k < COL {
        lemma_first_sequence_from(layer, act, k + 1);
    }
}

/// Either the events of a step go on in order, or a sequence absorbs them (see
/// `lemma_events_kept_in_order`).
pub open spec fn kept_in_order(s: State, input: Input, s2: State, outs: Seq<Output>) -> bool {
    match input {
        Input::Timeout => emitted(outs) =~= seq![] && forwarded(outs) + held_back(s2) =~= held_back(s),
        Input::Event(e) => {
            ||| (emitted(outs) =~= seq![] && forwarded(outs) + held_back(s2) =~= held_back(s).push(e))
            ||| (forwarded(outs) =~= seq![] && held_back(s2) =~= seq![] && e is Key && !(s is Idle))
        },
    }
}

/// No key event is lost, duplicated or reordered, except into a sequence: on a key event of the
/// engine's rows, each step either passes the held-back events and the new event on, in their
/// order of arrival (possibly holding the newest back for now), or it absorbs them all into a
/// sequence, which a synthetic event then stands for. A timeout sends the held-back events on
/// unchanged. (Other events are passed on at once, ahead of held-back ones: see
/// `lemma_other_events_pass_through`.)
pub proof fn lemma_events_kept_in_order(s: State, input: Input, now: u64, layer: Layer0)
    requires
        s.wf(),
        input matches Input::Event(e) ==> (e matches Event::Key(kb) && decoded(kb) is Some),
    ensures
        kept_in_order(s, input, next(s, input, now, layer).0, next(s, input, now, layer).1),
{
    let (s2, outs) = next(s, input, now, layer);
    lemma_output_shapes(outs);
    if let Input::Event(e) = input {
        if let Event::Key(kb) = e {
            if let Some((r, c, p)) = decoded(kb) {
                assert(kb == key_event(r, c, p));
            }
            if let State::Held1 { .. } = s {
                assert(held_back(s).push(e) =~= seq![held_back(s)[0], e]);
            }
            if let State::WaitSecond { .. } = s {
                assert(held_back(s).push(e) =~= seq![held_back(s)[0], held_back(s)[1], e]);
            }
        }
    }
}

/// Synthetic presses and releases alternate: a step sends at most one synthetic event; a
/// synthetic press of sequence `n` happens only when no synthetic key is down and leaves that
/// of `n` down; a synthetic release of `n` happens only while that of `n` is down and leaves
/// none down; a step without synthetic events leaves the synthetic key as it was.
pub proof fn lemma_synthetic_events_balanced(s: State, input: Input, now: u64, layer: Layer0)
    requires
        s.wf(),
    ensures
        ({
            let (s2, outs) = next(s, input, now, layer);
            let em = emitted(outs);
            &&& em.len() <= 1
            &&& em.len() == 0 ==> synthetic_down(s2) == synthetic_down(s)
            &&& em.len() == 1 && em[0].1 ==> synthetic_down(s) is None && synthetic_down(s2) == Some(
                em[0].0,
            )
            &&& em.len() == 1 && !em[0].1 ==> synthetic_down(s) == Some(em[0].0) && synthetic_down(s2) is None
        }),
{
    let (s2, outs) = next(s, input, now, layer);
    lemma_output_shapes(outs);
}

/// Sequence `n` fires (its synthetic press is sent) exactly when key 2 of `n` is pressed while
/// key 1 of `n` is held or was just tapped; so a disabled sequence never fires.
pub proof fn lemma_fires_exactly_on_key2(s: State, input: Input, now: u64, layer: Layer0, n: u8)
    requires
        s.wf(),
    ensures
        emitted(next(s, input, now, layer).1).contains((n, true)) == fires(s, input, layer, n),
        fires(s, input, layer, n) ==> enabled(layer, n as int),
{
    let (s2, outs) = next(s, input, now, layer);
    lemma_output_shapes(outs);
    if fires(s, input, layer, n) {
        assert(emitted(outs)[0] == (n, true));
    }
}

/// A key press is held back only if it is key 1 of a sequence: leaving `Idle` for `Held1` of
/// sequence `n` takes a press of a key with `key1_col` equal to `n`.
pub proof fn lemma_held_only_for_key1(input: Input, now: u64, layer: Layer0)
    ensures
        next(State::Idle, input, now, layer).0 matches State::Held1 { seq_col, key1_pos, .. } ==> {
            &&& input matches Input::Event(Event::Key(kb))
            &&& decoded(kb) == Some((key1_pos.0, key1_pos.1, true))
            &&& key1_col(layer, key1_pos.0 as int, key1_pos.1 as int) == Some(seq_col)
        },
{
}

/// Events that are not key events of the engine's rows (rotary encoders, other devices) are
/// passed on at once and leave the state as it was, even in the middle of a sequence.
pub proof fn lemma_other_events_pass_through(s: State, e: Event, now: u64, layer: Layer0)
    requires
        e matches Event::Key(kb) ==> decoded(kb) is None,
    ensures
        next(s, Input::Event(e), now, layer) == (s, seq![Output::Forward(e)]),
{
}

/// A timeout ends the wait: the held-back events are sent on in order and the engine is idle.
/// States without a deadline ignore it.
pub proof fn lemma_timeout_flushes(s: State, now: u64, layer: Layer0)
    ensures
        ({
            let (s2, outs) = next(s, Input::Timeout, now, layer);
            if s.spec_deadline() is Some {
                s2 == State::Idle && outs =~= held_back(s).map_values(|e: Event| Output::Forward(e))
            } else {
                s2 == s && outs =~= seq![]
            }
        }),
{
}

/// Tapping key 1 of sequence `n` (released within the tap term) and then pressing and
/// releasing key 2 of `n`, with no timeout in between, sends exactly the synthetic press and
/// release of `n` and nothing else, and leaves the engine idle.
pub proof fn lemma_tap_then_key2_sends_synthetic_key(
    layer: Layer0,
    n: u8,
    r1: u8,
    c1: u8,
    r2: u8,
    c2: u8,
    t0: u64,
    t1: u64,
    t2: u64,
    t3: u64,
)
    requires
        r1 < LAYER0_ROWS && c1 < COL && r2 < LAYER0_ROWS && c2 < COL,
        key1_col(layer, r1 as int, c1 as int) == Some(n),
        is_key2(layer, r2 as int, c2 as int, n as int),
        t1 < t0 + tap_ticks(),
        time_in_range(t0),
        time_in_range(t1),
    ensures
        ({
            let (s1, o1) = next(State::Idle, Input::Event(Event::Key(key_event(r1, c1, true))), t0, layer);
            let (s2, o2) = next(s1, Input::Event(Event::Key(key_event(r1, c1, false))), t1, layer);
            let (s3, o3) = next(s2, Input::Event(Event::Key(key_event(r2, c2, true))), t2, layer);
            let (s4, o4) = next(s3, Input::Event(Event::Key(key_event(r2, c2, false))), t3, layer);
            &&& o1 =~= seq![]
            &&& o2 =~= seq![]
            &&& o3 =~= seq![Output::Emit { col: n, pressed: true }]
            &&& o4 =~= seq![Output::Emit { col: n, pressed: false }]
            &&& s4 == State::Idle
        }),
{
}

/// Holding key 1 of sequence `n` and pressing key 2 of `n` before the overlap window ends
/// (a roll) sends the synthetic press of `n`; releasing both keys, in either order, sends the
/// synthetic release and nothing else, and leaves the engine idle.
pub proof fn lemma_roll_sends_synthetic_key(
    layer: Layer0,
    n: u8,
    r1: u8,
    c1: u8,
    r2: u8,
    c2: u8,
    t0: u64,
    t1: u64,
    t2: u64,
    t3: u64,
)
    requires
        r1 < LAYER0_ROWS && c1 < COL && r2 < LAYER0_ROWS && c2 < COL,
        r1 != r2 || c1 != c2,
        key1_col(layer, r1 as int, c1 as int) == Some(n),
        is_key2(layer, r2 as int, c2 as int, n as int),
        time_in_range(t0),
    ensures
        ({
            let (s1, o1) = next(State::Idle, Input::Event(Event::Key(key_event(r1, c1, true))), t0, layer);
            let (s2, o2) = next(s1, Input::Event(Event::Key(key_event(r2, c2, true))), t1, layer);
            let (s3, o3) = next(s2, Input::Event(Event::Key(key_event(r1, c1, false))), t2, layer);
            let (s4, o4) = next(s3, Input::Event(Event::Key(key_event(r2, c2, false))), t3, layer);
            let (s3b, o3b) = next(s2, Input::Event(Event::Key(key_event(r2, c2, false))), t2, layer);
            let (s4b, o4b) = next(s3b, Input::Event(Event::Key(key_event(r1, c1, false))), t3, layer);
            &&& o1 =~= seq![]
            &&& o2 =~= seq![Output::Emit { col: n, pressed: true }]
            &&& o3 =~= seq![] && o4 =~= seq![Output::Emit { col: n, pressed: false }] && s4 == State::Idle
            &&& o3b =~= seq![Output::Emit { col: n, pressed: false }] && o4b =~= seq![] && s4b == State::Idle
        }),
{
}

} // verus!
