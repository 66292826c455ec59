//! Properties of whole runs of the sequence engine: sequences of inputs fed to `step` one after
//! the other, as the firmware's loop does, with layer 0 unchanged during the run.

use vstd::prelude::*;
use crate::event::{key_event, Event, KeyboardEvent};
use crate::sequence_laws::{
    emitted, forwarded, held_back, lemma_output_shapes, lemma_step_preserves_wf,
    lemma_events_kept_in_order, lemma_synthetic_events_balanced, synthetic_down,
};
use crate::sequences::{adds_duration, decoded, key1_col, next, time_in_range, Input, Layer0, Output, State};

verus! {

/// The state reached and the outputs sent, in order, when the engine runs from `s` on
/// `inputs`, each input paired with the time at which it is handled.
pub open spec fn run(s: State, inputs: Seq<(Input, u64)>, layer: Layer0) -> (State, Seq<Output>)
    decreases inputs.len(),
{
    if inputs.len() == 0 {
        (s, seq![])
    } else {
        let (s1, o1) = run(s, inputs.drop_last(), layer);
        let (s2, o2) = next(s1, inputs.last().0, inputs.last().1, layer);
        (s2, o1 + o2)
    }
}

/// Every step of the run that adds a duration to the time leaves room for it (what `step`
/// requires at each step).
pub open spec fn run_in_range(s: State, inputs: Seq<(Input, u64)>, layer: Layer0) -> bool
    decreases inputs.len(),
{
    inputs.len() == 0 || {
        &&& run_in_range(s, inputs.drop_last(), layer)
        &&& adds_duration(run(s, inputs.drop_last(), layer).0, inputs.last().0, inputs.last().1, layer)
            ==> time_in_range(inputs.last().1)
    }
}

/// The events among `inputs`, in order (timeouts left out).
pub open spec fn events_of(inputs: Seq<(Input, u64)>) -> Seq<Event>
    decreases inputs.len(),
{
    if inputs.len() == 0 {
        seq![]
    } else {
        let rest = events_of(inputs.drop_last());
        match inputs.last().0 {
            Input::Event(e) => rest.push(e),
            Input::Timeout => rest,
        }
    }
}

/// Whether `e` is a key event at a position of the engine's rows.
pub open spec fn positional(e: Event) -> bool {
    e matches Event::Key(kb) && decoded(kb) is Some
}

/// The key events at positions of the engine's rows among `es`, in order.
pub open spec fn positional_part(es: Seq<Event>) -> Seq<Event>
    decreases es.len(),
{
    if es.len() == 0 {
        seq![]
    } else {
        let rest = positional_part(es.drop_last());
        if positional(es.last()) {
            rest.push(es.last())
        } else {
            rest
        }
    }
}

/// Whether `input` is not the press of a key that is key 1 of a sequence.
pub open spec fn presses_no_key1(input: Input, layer: Layer0) -> bool {
    match input {
        Input::Event(Event::Key(kb)) => match decoded(kb) {
            Some((r, c, true)) => key1_col(layer, r as int, c as int) is None,
            _ => true,
        },
        _ => true,
    }
}

/// `inputs` without its `Event::Other` inputs.
pub open spec fn without_other_events(inputs: Seq<(Input, u64)>) -> Seq<(Input, u64)>
    decreases inputs.len(),
{
    if inputs.len() == 0 {
        seq![]
    } else {
        let rest = without_other_events(inputs.drop_last());
        if inputs.last().0 == Input::Event(Event::Other) {
            rest
        } else {
            rest.push(inputs.last())
        }
    }
}

/// `outs` without the forwarding of `Event::Other` events: what goes to the key-event channel.
pub open spec fn key_channel(outs: Seq<Output>) -> Seq<Output>
    decreases outs.len(),
{
    if outs.len() == 0 {
        seq![]
    } else {
        let rest = key_channel(outs.drop_last());
        if outs.last() == Output::Forward(Event::Other) {
            rest
        } else {
            rest.push(outs.last())
        }
    }
}

/// Synthetic events alternate: presses at even places, releases at odd places, each release
/// of the sequence pressed just before it.
pub open spec fn synthetic_alternate(es: Seq<(u8, bool)>) -> bool {
    forall|i: int|
        0 <= i < es.len() ==> {
            &&& #[trigger] es[i].1 == (i % 2 == 0)
            &&& i % 2 == 1 ==> es[i].0 == es[i - 1].0
        }
}

proof fn lemma_forwarded_concat(a: Seq<Output>, b: Seq<Output>)
    ensures
        forwarded(a + b) =~= forwarded(a) + forwarded(b),
    decreases b.len(),
{
    if b.len() > 0 {
        lemma_forwarded_concat(a, b.drop_last());
        assert((a + b).drop_last() =~= a + b.drop_last());
    } else {
        assert(a + b =~= a);
    }
}

proof fn lemma_emitted_concat(a: Seq<Output>, b: Seq<Output>)
    ensures
        emitted(a + b) =~= emitted(a) + emitted(b),
    decreases b.len(),
{
    if b.len() > 0 {
        lemma_emitted_concat(a, b.drop_last());
        assert((a + b).drop_last() =~= a + b.drop_last());
    } else {
        assert(a + b =~= a);
    }
}

proof fn lemma_key_channel_concat(a: Seq<Output>, b: Seq<Output>)
    ensures
        key_channel(a + b) =~= key_channel(a) + key_channel(b),
    decreases b.len(),
{
    if b.len() > 0 {
        lemma_key_channel_concat(a, b.drop_last());
        assert((a + b).drop_last() =~= a + b.drop_last());
    } else {
        assert(a + b =~= a);
    }
}

proof fn lemma_positional_part_concat(a: Seq<Event>, b: Seq<Event>)
    ensures
        positional_part(a + b) =~= positional_part(a) + positional_part(b),
    decreases b.len(),
{
    if b.len() > 0 {
        lemma_positional_part_concat(a, b.drop_last());
        assert((a + b).drop_last() =~= a + b.drop_last());
    } else {
        assert(a + b =~= a);
    }
}

/// `key_channel` of outputs of up to three elements, element by element.
proof fn lemma_key_channel_shapes(outs: Seq<Output>)
    ensures
        outs.len() == 0 ==> key_channel(outs) =~= seq![],
        outs.len() == 1 && outs[0] != Output::Forward(Event::Other) ==> key_channel(outs) =~= outs,
        outs.len() == 1 && outs[0] == Output::Forward(Event::Other) ==> key_channel(outs) =~= seq![],
        outs.len() == 2 && outs[0] != Output::Forward(Event::Other) && outs[1] != Output::Forward(Event::Other)
            ==> key_channel(outs) =~= outs,
        outs.len() == 3 && outs[0] != Output::Forward(Event::Other) && outs[1] != Output::Forward(Event::Other)
            && outs[2] != Output::Forward(Event::Other) ==> key_channel(outs) =~= outs,
{
    reveal_with_fuel(key_channel, 4);
    if outs.len() == 1 {
        assert(outs.drop_last() =~= seq![]);
    } else if outs.len() == 2 {
        assert(outs.drop_last().drop_last() =~= seq![]);
        assert(outs.drop_last() =~= seq![outs[0]]);
    } else if outs.len() == 3 {
        assert(outs.drop_last().drop_last().drop_last() =~= seq![]);
        assert(outs.drop_last().drop_last() =~= seq![outs[0]]);
        assert(outs.drop_last() =~= seq![outs[0], outs[1]]);
    }
}

/// Every state reached in a run from a well-formed state is well formed.
pub proof fn lemma_run_wf(s: State, inputs: Seq<(Input, u64)>, layer: Layer0)
    requires
        s.wf(),
        run_in_range(s, inputs, layer),
    ensures
        run(s, inputs, layer).0.wf(),
    decreases inputs.len(),
{
    if inputs.len() > 0 {
        lemma_run_wf(s, inputs.drop_last(), layer);
        lemma_step_preserves_wf(run(s, inputs.drop_last(), layer).0, inputs.last().0, inputs.last().1, layer);
    }
}

/// When no key pressed during the run is key 1 of a sequence, the engine stays idle and sends
/// every event on at once, in the order read: exactly what it would send without sequences.
pub proof fn lemma_run_without_key1_passes_everything(inputs: Seq<(Input, u64)>, layer: Layer0)
    requires
        forall|i: int| 0 <= i < inputs.len() ==> presses_no_key1(#[trigger] inputs[i].0, layer),
    ensures
        run(State::Idle, inputs, layer).0 == State::Idle,
        run(State::Idle, inputs, layer).1 =~= events_of(inputs).map_values(|e: Event| Output::Forward(e)),
    decreases inputs.len(),
{
    if inputs.len() > 0 {
        let pre = inputs.drop_last();
        assert forall|i: int| 0 <= i < pre.len() implies presses_no_key1(#[trigger] pre[i].0, layer) by {
            assert(pre[i] == inputs[i]);
        }
        lemma_run_without_key1_passes_everything(pre, layer);
        let x = inputs.last();
        assert(x == inputs[inputs.len() - 1]);
    }
}

/// `Event::Other` events do not affect the run: removing them from the input leaves the
/// final state and everything sent to the key-event channel (all outputs but the forwarding of
/// those events) unchanged. Each of them is forwarded at once (see
/// `lemma_other_events_pass_through`).
pub proof fn lemma_other_events_do_not_affect_run(s: State, inputs: Seq<(Input, u64)>, layer: Layer0)
    ensures
        run(s, inputs, layer).0 == run(s, without_other_events(inputs), layer).0,
        key_channel(run(s, inputs, layer).1) =~= key_channel(run(s, without_other_events(inputs), layer).1),
    decreases inputs.len(),
{
    if inputs.len() > 0 {
        let pre = inputs.drop_last();
        let x = inputs.last();
        lemma_other_events_do_not_affect_run(s, pre, layer);
        let (s1, o1) = run(s, pre, layer);
        let (s2, o2) = next(s1, x.0, x.1, layer);
        lemma_key_channel_concat(o1, o2);
        lemma_output_shapes(o2);
        lemma_key_channel_shapes(o2);
        let stripped = without_other_events(inputs);
        if x.0 == Input::Event(Event::Other) {
            assert(stripped == without_other_events(pre));
            assert(key_channel(o2) =~= seq![]);
        } else {
            assert(stripped == without_other_events(pre).push(x));
            assert(stripped.drop_last() =~= without_other_events(pre));
            let (t1, p1) = run(s, without_other_events(pre), layer);
            let (t2, p2) = next(t1, x.0, x.1, layer);
            lemma_key_channel_concat(p1, p2);
            assert(t1 == s1);
            assert(p2 == o2);
        }
    }
}

/// Over a run from `Idle`, synthetic presses and releases alternate, each release of the
/// sequence pressed just before it, and a synthetic key is down at the end exactly when the
/// last synthetic event is a press.
pub proof fn lemma_run_synthetic_events_alternate(inputs: Seq<(Input, u64)>, layer: Layer0)
    requires
        run_in_range(State::Idle, inputs, layer),
    ensures
        synthetic_alternate(emitted(run(State::Idle, inputs, layer).1)),
        synthetic_down(run(State::Idle, inputs, layer).0) == if emitted(run(State::Idle, inputs, layer).1).len()
            % 2 == 0 {
            None
        } else {
            Some(emitted(run(State::Idle, inputs, layer).1).last().0)
        },
    decreases inputs.len(),
{
    if inputs.len() > 0 {
        let pre = inputs.drop_last();
        let x = inputs.last();
        lemma_run_synthetic_events_alternate(pre, layer);
        lemma_run_wf(State::Idle, pre, layer);
        let (s1, o1) = run(State::Idle, pre, layer);
        let (s2, o2) = next(s1, x.0, x.1, layer);
        lemma_synthetic_events_balanced(s1, x.0, x.1, layer);
        lemma_emitted_concat(o1, o2);
        let e1 = emitted(o1);
        let e2 = emitted(o2);
        let e = e1 + e2;
        assert forall|i: int| 0 <= i < e.len() implies {
            &&& #[trigger] e[i].1 == (i % 2 == 0)
            &&& i % 2 == 1 ==> e[i].0 == e[i - 1].0
        } by {
            if i < e1.len() {
                assert(e[i] == e1[i]);
                if i % 2 == 1 {
                    assert(e[i - 1] == e1[i - 1]);
                }
            } else {
                assert(i == e1.len());
                assert(e[i] == e2[0]);
                if e2[0].1 {
                    assert(synthetic_down(s1) is None);
                    assert(e1.len() % 2 == 0);
                } else {
                    assert(synthetic_down(s1) == Some(e2[0].0));
                    assert(e1.len() % 2 == 1);
                    assert(e[i - 1] == e1[e1.len() - 1]);
                    assert(e1.last().0 == e2[0].0);
                }
            }
        }
    }
}

/// Whether every event of `es` is a key event at a position of the engine's rows.
pub open spec fn all_positional(es: Seq<Event>) -> bool {
    forall|i: int| 0 <= i < es.len() ==> positional(#[trigger] es[i])
}

/// The key event of `input` at a position of the engine's rows, if it is one.
pub open spec fn positional_input(input: Input) -> Seq<Event> {
    match input {
        Input::Event(e) => if positional(e) {
            seq![e]
        } else {
            seq![]
        },
        Input::Timeout => seq![],
    }
}

proof fn lemma_positional_part_of_positional(es: Seq<Event>)
    requires
        all_positional(es),
    ensures
        positional_part(es) =~= es,
    decreases es.len(),
{
    if es.len() > 0 {
        assert(positional(es[es.len() - 1]));
        lemma_positional_part_of_positional(es.drop_last());
    }
}

proof fn lemma_held_back_positional(s: State)
    requires
        s.wf(),
    ensures
        all_positional(held_back(s)),
{
}

/// One step without synthetic events from a state that holds no synthetic key: the key events
/// forwarded and held back are those held back before and the new one, in order.
proof fn lemma_step_without_sequence(s: State, input: Input, now: u64, layer: Layer0)
    requires
        s.wf(),
        adds_duration(s, input, now, layer) ==> time_in_range(now),
        s is Idle || s is Held1 || s is WaitSecond,
        emitted(next(s, input, now, layer).1) =~= seq![],
    ensures
        ({
            let (s2, outs) = next(s, input, now, layer);
            &&& s2 is Idle || s2 is Held1 || s2 is WaitSecond
            &&& positional_part(forwarded(outs)) + held_back(s2) =~= held_back(s) + positional_input(input)
        }),
{
    let (s2, outs) = next(s, input, now, layer);
    lemma_output_shapes(outs);
    lemma_step_preserves_wf(s, input, now, layer);
    lemma_held_back_positional(s);
    lemma_held_back_positional(s2);
    let f = forwarded(outs);
    let is_pos = match input {
        Input::Event(e) => positional(e),
        Input::Timeout => true,
    };
    if is_pos {
        lemma_events_kept_in_order(s, input, now, layer);
        let whole = held_back(s) + positional_input(input);
        assert(f + held_back(s2) =~= whole);
        assert(all_positional(whole));
        assert(f =~= whole.subrange(0, f.len() as int));
        assert(all_positional(f));
        lemma_positional_part_of_positional(f);
    } else {
        if let Input::Event(e) = input {
            reveal_with_fuel(positional_part, 2);
            assert(outs =~= seq![Output::Forward(e)]);
            assert(f =~= seq![e]);
            assert(f.drop_last() =~= seq![]);
        }
    }
}

/// Over a run from `Idle` in which no sequence fires, no key event of the engine's rows is
/// lost, duplicated, invented or reordered, only delayed: the key events forwarded, followed
/// by those still held back, are exactly those read, in order. Once a timeout ends the run,
/// nothing is held back any more.
pub proof fn lemma_run_keeps_key_events_in_order(inputs: Seq<(Input, u64)>, layer: Layer0)
    requires
        run_in_range(State::Idle, inputs, layer),
        emitted(run(State::Idle, inputs, layer).1) =~= seq![],
    ensures
        ({
            let (s, outs) = run(State::Idle, inputs, layer);
            &&& positional_part(forwarded(outs)) + held_back(s) =~= positional_part(events_of(inputs))
            &&& inputs.len() > 0 && inputs.last().0 == Input::Timeout ==> held_back(s) =~= seq![]
            &&& s is Idle || s is Held1 || s is WaitSecond
        }),
    decreases inputs.len(),
{
    if inputs.len() > 0 {
        let pre = inputs.drop_last();
        let x = inputs.last();
        let (s1, o1) = run(State::Idle, pre, layer);
        let (s2, o2) = next(s1, x.0, x.1, layer);
        lemma_emitted_concat(o1, o2);
        assert(emitted(o1).len() + emitted(o2).len() == 0);
        assert(emitted(o1) =~= seq![]);
        assert(emitted(o2) =~= seq![]);
        lemma_run_keeps_key_events_in_order(pre, layer);
        lemma_run_wf(State::Idle, pre, layer);
        lemma_step_without_sequence(s1, x.0, x.1, layer);
        lemma_forwarded_concat(o1, o2);
        lemma_positional_part_concat(forwarded(o1), forwarded(o2));
        let ev_pre = events_of(pre);
        match x.0 {
            Input::Event(e) => {
                assert(events_of(inputs) == ev_pre.push(e));
                assert(ev_pre.push(e) =~= ev_pre + seq![e]);
                lemma_positional_part_concat(ev_pre, seq![e]);
                reveal_with_fuel(positional_part, 2);
                assert(seq![e].drop_last() =~= seq![]);
                assert(positional_part(seq![e]) =~= positional_input(x.0));
            },
            Input::Timeout => {
                assert(events_of(inputs) == ev_pre);
                lemma_output_shapes(o2);
            },
        }
        assert(run(State::Idle, inputs, layer) == (s2, o1 + o2));
        let lhs = positional_part(forwarded(o1 + o2)) + held_back(s2);
        assert(lhs =~= positional_part(forwarded(o1)) + (positional_part(forwarded(o2)) + held_back(s2)));
        assert(lhs =~= positional_part(events_of(inputs)));
        assert(s2 is Idle || s2 is Held1 || s2 is WaitSecond);
    }
}

/// The matrix position of a key event of the engine's rows.
pub open spec fn pos_of(kb: KeyboardEvent) -> (u8, u8) {
    match decoded(kb) {
        Some((r, c, _)) => (r, c),
        None => (0, 0),
    }
}

/// The keys down after event `e`, with `down` down before it; `None` when `e` presses a key
/// that is down or releases one that is not. Events at no position of the engine's rows
/// change nothing.
pub open spec fn press_release(down: Set<(u8, u8)>, e: Event) -> Option<Set<(u8, u8)>> {
    match e {
        Event::Key(kb) => match decoded(kb) {
            Some((r, c, p)) => {
                if p {
                    if down.contains((r, c)) {
                        None
                    } else {
                        Some(down.insert((r, c)))
                    }
                } else {
                    if down.contains((r, c)) {
                        Some(down.remove((r, c)))
                    } else {
                        None
                    }
                }
            },
            None => Some(down),
        },
        Event::Other => Some(down),
    }
}

/// The keys down after the events `es`, with `down` down before them; `None` unless, at every
/// position, presses and releases alternate, a press coming first for a key not down.
/// `keys_down_after(Set::empty(), es) is Some` says that `es` pairs every press with at most
/// one release and every release with an earlier press.
pub open spec fn keys_down_after(down: Set<(u8, u8)>, es: Seq<Event>) -> Option<Set<(u8, u8)>>
    decreases es.len(),
{
    if es.len() == 0 {
        Some(down)
    } else {
        match keys_down_after(down, es.drop_last()) {
            Some(d) => press_release(d, es.last()),
            None => None,
        }
    }
}

/// The keys that are down but whose press the engine has not sent on.
pub open spec fn withheld(s: State) -> Set<(u8, u8)> {
    match s {
        State::Held1 { key1_pos, .. } => set![key1_pos],
        State::Emitting { key2_pos, .. } => set![key2_pos],
        State::EmittingOverlap { key1_pos, key2_pos, key1_released, key2_released, .. } => {
            let a = if key1_released {
                Set::<(u8, u8)>::empty()
            } else {
                set![key1_pos]
            };
            let b = if key2_released {
                Set::<(u8, u8)>::empty()
            } else {
                set![key2_pos]
            };
            a.union(b)
        },
        _ => Set::empty(),
    }
}

/// How the keys down on the matrix (`down`) and the keys down as sent on (`sent`) relate in
/// state `s`: they differ by the withheld keys only.
pub open spec fn tracks(s: State, down: Set<(u8, u8)>, sent: Set<(u8, u8)>) -> bool {
    &&& withheld(s).subset_of(down)
    &&& sent =~= down.difference(withheld(s))
    &&& match s {
        State::EmittingOverlap { key1_pos, key2_pos, key1_released, key2_released, .. } => {
            !key1_released && !key2_released ==> key1_pos != key2_pos
        },
        State::WaitSecond { tap_press, .. } => !down.contains(pos_of(tap_press)),
        _ => true,
    }
}

proof fn lemma_keys_down_after_concat(d: Set<(u8, u8)>, a: Seq<Event>, b: Seq<Event>)
    ensures
        keys_down_after(d, a + b) == match keys_down_after(d, a) {
            Some(d1) => keys_down_after(d1, b),
            None => None,
        },
    decreases b.len(),
{
    if b.len() > 0 {
        lemma_keys_down_after_concat(d, a, b.drop_last());
        assert((a + b).drop_last() =~= a + b.drop_last());
    } else {
        assert(a + b =~= a);
    }
}

/// `keys_down_after` of up to three events, event by event.
proof fn lemma_keys_down_after_shapes(d: Set<(u8, u8)>, es: Seq<Event>)
    ensures
        es.len() == 0 ==> keys_down_after(d, es) == Some(d),
        es.len() == 1 ==> keys_down_after(d, es) == press_release(d, es[0]),
        es.len() == 2 ==> keys_down_after(d, es) == match press_release(d, es[0]) {
            Some(d1) => press_release(d1, es[1]),
            None => None,
        },
        es.len() == 3 ==> keys_down_after(d, es) == match press_release(d, es[0]) {
            Some(d1) => match press_release(d1, es[1]) {
                Some(d2) => press_release(d2, es[2]),
                None => None,
            },
            None => None,
        },
{
    reveal_with_fuel(keys_down_after, 4);
    if es.len() == 1 {
        assert(es.drop_last() =~= seq![]);
    } else if es.len() == 2 {
        assert(es.drop_last().drop_last() =~= seq![]);
        assert(es.drop_last() =~= seq![es[0]]);
    } else if es.len() == 3 {
        assert(es.drop_last().drop_last().drop_last() =~= seq![]);
        assert(es.drop_last().drop_last() =~= seq![es[0]]);
        assert(es.drop_last() =~= seq![es[0], es[1]]);
    }
}

/// One step keeps `tracks`: if the input keeps presses and releases paired at every
/// position, so do the events sent on.
proof fn lemma_step_keeps_keys_paired(
    s: State,
    input: Input,
    now: u64,
    layer: Layer0,
    down: Set<(u8, u8)>,
    sent: Set<(u8, u8)>,
)
    requires
        s.wf(),
        tracks(s, down, sent),
        input matches Input::Event(e) ==> press_release(down, e) is Some,
    ensures
        ({
            let s2 = next(s, input, now, layer).0;
            let f = forwarded(next(s, input, now, layer).1);
            let down2 = match input {
                Input::Event(e) => press_release(down, e).unwrap(),
                Input::Timeout => down,
            };
            keys_down_after(sent, f) matches Some(sent2) && tracks(s2, down2, sent2)
        }),
{
    let (s2, outs) = next(s, input, now, layer);
    lemma_output_shapes(outs);
    let f = forwarded(outs);
    lemma_keys_down_after_shapes(sent, f);
    if let Input::Event(Event::Key(kb)) = input {
        if let Some((r, c, p)) = decoded(kb) {
            assert(kb == key_event(r, c, p));
        }
    }
    match s {
        State::Held1 { key1_pos, pending_press, .. } => {
            assert(decoded(pending_press) == Some((key1_pos.0, key1_pos.1, true)));
        },
        State::WaitSecond { tap_press, tap_release, .. } => {
            assert(decoded(tap_release) == Some((pos_of(tap_press).0, pos_of(tap_press).1, false)));
        },
        _ => {},
    }
    let down2 = match input {
        Input::Event(e) => press_release(down, e).unwrap(),
        Input::Timeout => down,
    };
    let sent2 = keys_down_after(sent, f);
    assert(sent2 is Some);
    assert(tracks(s2, down2, sent2.unwrap()));
}

/// Over a run from `Idle`, if the matrix reports presses and releases paired at every position
/// (each release after a press of the same key, no key pressed twice without a release), then
/// so are the key events sent on: a withheld press always has its release withheld too, and a
/// forwarded press has its release forwarded once it is read. The keys down as sent on differ
/// from the keys down on the matrix by the withheld keys only.
pub proof fn lemma_run_keeps_keys_paired(inputs: Seq<(Input, u64)>, layer: Layer0)
    requires
        run_in_range(State::Idle, inputs, layer),
        keys_down_after(Set::empty(), events_of(inputs)) is Some,
    ensures
        keys_down_after(Set::empty(), forwarded(run(State::Idle, inputs, layer).1)) is Some,
        tracks(
            run(State::Idle, inputs, layer).0,
            keys_down_after(Set::empty(), events_of(inputs)).unwrap(),
            keys_down_after(Set::empty(), forwarded(run(State::Idle, inputs, layer).1)).unwrap(),
        ),
    decreases inputs.len(),
{
    if inputs.len() == 0 {
        assert(withheld(State::Idle) =~= Set::empty());
    } else {
        let pre = inputs.drop_last();
        let x = inputs.last();
        let (s1, o1) = run(State::Idle, pre, layer);
        let (s2, o2) = next(s1, x.0, x.1, layer);
        let ev_pre = events_of(pre);
        let tail = match x.0 {
            Input::Event(e) => seq![e],
            Input::Timeout => seq![],
        };
        assert(events_of(inputs) =~= ev_pre + tail);
        lemma_keys_down_after_concat(Set::empty(), ev_pre, tail);
        lemma_keys_down_after_shapes(keys_down_after(Set::empty(), ev_pre).unwrap_or(Set::empty()), tail);
        lemma_run_keeps_keys_paired(pre, layer);
        lemma_run_wf(State::Idle, pre, layer);
        let down = keys_down_after(Set::empty(), ev_pre).unwrap();
        let sent = keys_down_after(Set::empty(), forwarded(o1)).unwrap();
        lemma_step_keeps_keys_paired(s1, x.0, x.1, layer, down, sent);
        lemma_forwarded_concat(o1, o2);
        lemma_keys_down_after_concat(Set::empty(), forwarded(o1), forwarded(o2));
        assert(run(State::Idle, inputs, layer) == (s2, o1 + o2));
    }
}

} // verus!
