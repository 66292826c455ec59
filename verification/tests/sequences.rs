use primer29::action::{self, KeyAction};
use primer29::event::{Event, KeyboardEvent, KeyboardEventPos};
use primer29::keymap::{get_default_keymap, COL};
use primer29::sequences::{
    decode_key_event, find_key1_col, held1, step_adds_duration, time_fits, is_key2_of, is_trigger_set, seq_enabled, step, Input, Layer0,
    Output, State, LAYER0_ROWS, OUT_ROW,
};

/// Layer 0 of the default keymap with three sequences configured:
/// 0: KP_1 then KP_2; 1: KP_1 then KP_3 (shadowed by 0 for key 1); 2: KP_4 with no key 2 (disabled);
/// 3: KP_5 then KP_6 with TRIG2 transparent (disabled); 4: KP_7 then KP_8.
fn layer() -> Layer0 {
    let km = get_default_keymap();
    let mut cells = [[KeyAction::No; COL]; LAYER0_ROWS];
    for r in 0..5 {
        cells[r] = km[0][r];
    }
    cells[5][0] = KeyAction::key(action::KP_1);
    cells[6][0] = KeyAction::key(action::KP_2);
    cells[7][0] = KeyAction::key(0x04);
    cells[5][1] = KeyAction::key(action::KP_1);
    cells[6][1] = KeyAction::key(action::KP_3);
    cells[7][1] = KeyAction::key(0x05);
    cells[5][2] = KeyAction::key(action::KP_4);
    cells[5][3] = KeyAction::key(action::KP_5);
    cells[6][3] = KeyAction::Transparent;
    cells[5][4] = KeyAction::key(action::KP_7);
    cells[6][4] = KeyAction::key(action::KP_8);
    Layer0 { cells }
}

const KP1: (u8, u8) = (3, 3);
const KP2: (u8, u8) = (3, 4);
const KP3: (u8, u8) = (3, 5);
const KP4: (u8, u8) = (2, 3);
const KP5: (u8, u8) = (2, 4);
const KP7: (u8, u8) = (1, 3);
const KP8: (u8, u8) = (1, 4);
const ENTER: (u8, u8) = (4, 6);

fn ev(pos: (u8, u8), pressed: bool) -> Input {
    Input::Event(Event::Key(KeyboardEvent::key(pos.0, pos.1, pressed)))
}

fn fwd(pos: (u8, u8), pressed: bool) -> Output {
    Output::Forward(Event::Key(KeyboardEvent::key(pos.0, pos.1, pressed)))
}

/// Feeds inputs with their times and collects all outputs.
fn run(inputs: &[(Input, u64)]) -> (State, Vec<Output>) {
    let l = layer();
    let mut s = State::Idle;
    let mut all = Vec::new();
    for (i, t) in inputs {
        let (s2, out) = step(s, *i, *t, &l);
        s = s2;
        all.extend(out);
    }
    (s, all)
}

#[test]
fn decode_recovers_row_col_pressed() {
    assert_eq!(decode_key_event(KeyboardEvent::key(0, 0, true)), Some((0, 0, true)));
    assert_eq!(decode_key_event(KeyboardEvent::key(4, 6, false)), Some((4, 6, false)));
    assert_eq!(decode_key_event(KeyboardEvent::key(7, 6, true)), Some((7, 6, true)));
}

#[test]
fn decode_rejects_other_positions() {
    assert_eq!(decode_key_event(KeyboardEvent::key(8, 0, true)), None);
    assert_eq!(decode_key_event(KeyboardEvent::key(0, 7, true)), None);
    let enc = KeyboardEvent { pressed: true, pos: KeyboardEventPos::RotaryEncoder { id: 0, clockwise: true } };
    assert_eq!(decode_key_event(enc), None);
}

#[test]
fn no_and_transparent_are_not_triggers() {
    assert!(!is_trigger_set(KeyAction::No));
    assert!(!is_trigger_set(KeyAction::Transparent));
    assert!(is_trigger_set(KeyAction::key(action::KP_1)));
}

#[test]
fn sequences_need_both_triggers() {
    let l = layer();
    assert!(seq_enabled(&l, 0));
    assert!(seq_enabled(&l, 1));
    assert!(!seq_enabled(&l, 2));
    assert!(!seq_enabled(&l, 3));
    assert!(seq_enabled(&l, 4));
    assert!(!seq_enabled(&l, 6));
}

#[test]
fn key1_is_the_first_enabled_matching_column() {
    let l = layer();
    assert_eq!(find_key1_col(&l, KP1.0, KP1.1), Some(0));
    assert_eq!(find_key1_col(&l, KP7.0, KP7.1), Some(4));
    assert_eq!(find_key1_col(&l, KP4.0, KP4.1), None);
    assert_eq!(find_key1_col(&l, KP5.0, KP5.1), None);
    assert_eq!(find_key1_col(&l, 2, 0), None);
}

#[test]
fn key2_is_checked_against_the_sequence_column() {
    let l = layer();
    assert!(is_key2_of(&l, KP2.0, KP2.1, 0));
    assert!(!is_key2_of(&l, KP3.0, KP3.1, 0));
    assert!(is_key2_of(&l, KP3.0, KP3.1, 1));
    assert!(!is_key2_of(&l, 2, 0, 2));
}

#[test]
fn held1_deadline_is_the_overlap_window_in_ticks() {
    let kb = KeyboardEvent::key(KP1.0, KP1.1, true);
    let s = held1(0, KP1, kb, 1_000);
    assert_eq!(s, State::Held1 { seq_col: 0, key1_pos: KP1, pending_press: kb, pressed_at: 1_000, deadline: 301_000 });
    assert_eq!(s.deadline(), Some(301_000));
}

#[test]
fn tap_then_key2_sends_the_synthetic_key() {
    let (s, out) = run(&[
        (ev(KP1, true), 1_000),
        (ev(KP1, false), 100_000),
        (ev(KP2, true), 200_000),
        (ev(KP2, false), 900_000),
    ]);
    assert_eq!(s, State::Idle);
    assert_eq!(out, vec![Output::Emit { col: 0, pressed: true }, Output::Emit { col: 0, pressed: false }]);
}

#[test]
fn synthetic_output_is_the_out_row_position() {
    let o = Output::Emit { col: 3, pressed: true };
    assert_eq!(o.event(), Event::Key(KeyboardEvent::key(OUT_ROW, 3, true)));
    let f = fwd(KP1, false);
    assert_eq!(f.event(), Event::Key(KeyboardEvent::key(3, 3, false)));
}

#[test]
fn tap_state_waits_for_key2_with_gap_deadline() {
    let l = layer();
    let (s, out) = step(State::Idle, ev(KP1, true), 1_000, &l);
    assert!(out.is_empty());
    let (s, out) = step(s, ev(KP1, false), 150_000, &l);
    assert!(out.is_empty());
    assert_eq!(s.deadline(), Some(450_000));
}

#[test]
fn roll_sends_the_synthetic_key_key1_released_first() {
    let (s, out) = run(&[
        (ev(KP1, true), 0),
        (ev(KP2, true), 50_000),
        (ev(KP1, false), 60_000),
        (ev(KP2, false), 70_000),
    ]);
    assert_eq!(s, State::Idle);
    assert_eq!(out, vec![Output::Emit { col: 0, pressed: true }, Output::Emit { col: 0, pressed: false }]);
}

#[test]
fn roll_sends_the_synthetic_key_key2_released_first() {
    let l = layer();
    let (s, _) = step(State::Idle, ev(KP1, true), 0, &l);
    let (s, out) = step(s, ev(KP2, true), 10_000, &l);
    assert_eq!(out, vec![Output::Emit { col: 0, pressed: true }]);
    let (s, out) = step(s, ev(KP2, false), 20_000, &l);
    assert_eq!(out, vec![Output::Emit { col: 0, pressed: false }]);
    assert!(matches!(s, State::EmittingOverlap { key2_released: true, key1_released: false, .. }));
    let (s, out) = step(s, ev(KP1, false), 30_000, &l);
    assert!(out.is_empty());
    assert_eq!(s, State::Idle);
}

#[test]
fn slow_release_is_not_a_tap() {
    let (s, out) = run(&[(ev(KP1, true), 0), (ev(KP1, false), 200_000)]);
    assert_eq!(s, State::Idle);
    assert_eq!(out, vec![fwd(KP1, true), fwd(KP1, false)]);
}

#[test]
fn release_just_inside_the_tap_term_is_a_tap() {
    let (s, out) = run(&[(ev(KP1, true), 0), (ev(KP1, false), 199_999)]);
    assert!(out.is_empty());
    assert!(matches!(s, State::WaitSecond { seq_col: 0, .. }));
}

#[test]
fn overlap_timeout_sends_key1_press_on() {
    let l = layer();
    let (s, _) = step(State::Idle, ev(KP1, true), 0, &l);
    let (s, out) = step(s, Input::Timeout, 300_000, &l);
    assert_eq!(s, State::Idle);
    assert_eq!(out, vec![fwd(KP1, true)]);
}

#[test]
fn gap_timeout_sends_the_tap_on() {
    let (s, out) = run(&[(ev(KP1, true), 0), (ev(KP1, false), 10_000), (Input::Timeout, 310_000)]);
    assert_eq!(s, State::Idle);
    assert_eq!(out, vec![fwd(KP1, true), fwd(KP1, false)]);
}

#[test]
fn unrelated_key_after_key1_sends_both_on_in_order() {
    let (s, out) = run(&[(ev(KP1, true), 0), (ev(ENTER, true), 10_000)]);
    assert_eq!(s, State::Idle);
    assert_eq!(out, vec![fwd(KP1, true), fwd(ENTER, true)]);
}

#[test]
fn wrong_key2_after_tap_sends_everything_on() {
    let (s, out) = run(&[(ev(KP1, true), 0), (ev(KP1, false), 10_000), (ev(KP3, true), 20_000)]);
    assert_eq!(s, State::Idle);
    assert_eq!(out, vec![fwd(KP1, true), fwd(KP1, false), fwd(KP3, true)]);
}

#[test]
fn release_of_other_key_while_key1_held_sends_both_on() {
    let (s, out) = run(&[(ev(KP1, true), 0), (ev(ENTER, false), 10_000)]);
    assert_eq!(s, State::Idle);
    assert_eq!(out, vec![fwd(KP1, true), fwd(ENTER, false)]);
}

#[test]
fn release_after_tap_sends_everything_on() {
    let (s, out) = run(&[(ev(KP1, true), 0), (ev(KP1, false), 10_000), (ev(ENTER, false), 20_000)]);
    assert_eq!(s, State::Idle);
    assert_eq!(out, vec![fwd(KP1, true), fwd(KP1, false), fwd(ENTER, false)]);
}

#[test]
fn double_tap_of_key1_sends_first_tap_on_and_holds_the_second() {
    let (s, out) = run(&[(ev(KP1, true), 0), (ev(KP1, false), 10_000), (ev(KP1, true), 20_000)]);
    assert_eq!(out, vec![fwd(KP1, true), fwd(KP1, false)]);
    assert_eq!(s.deadline(), Some(320_000));
    assert!(matches!(s, State::Held1 { seq_col: 0, key1_pos: KP1, .. }));
}

#[test]
fn key1_of_another_sequence_while_held_switches_sequence() {
    let (s, out) = run(&[(ev(KP1, true), 0), (ev(KP7, true), 10_000)]);
    assert_eq!(out, vec![fwd(KP1, true)]);
    assert!(matches!(s, State::Held1 { seq_col: 4, key1_pos: KP7, .. }));
    let l = layer();
    let (s, out) = step(s, ev(KP8, true), 20_000, &l);
    assert_eq!(out, vec![Output::Emit { col: 4, pressed: true }]);
    assert!(matches!(s, State::EmittingOverlap { seq_col: 4, .. }));
}

#[test]
fn disabled_sequence_never_holds_keys() {
    let (s, out) = run(&[(ev(KP4, true), 0), (ev(KP4, false), 10_000), (ev(KP5, true), 20_000)]);
    assert_eq!(s, State::Idle);
    assert_eq!(out, vec![fwd(KP4, true), fwd(KP4, false), fwd(KP5, true)]);
}

#[test]
fn other_events_pass_without_disturbing_a_pending_sequence() {
    let l = layer();
    let (s, _) = step(State::Idle, ev(KP1, true), 0, &l);
    let (s2, out) = step(s, Input::Event(Event::Other), 5_000, &l);
    assert_eq!(s2, s);
    assert_eq!(out, vec![Output::Forward(Event::Other)]);
    let enc = Event::Key(KeyboardEvent { pressed: true, pos: KeyboardEventPos::RotaryEncoder { id: 1, clockwise: false } });
    let (s3, out) = step(s2, Input::Event(enc), 6_000, &l);
    assert_eq!(s3, s);
    assert_eq!(out, vec![Output::Forward(enc)]);
}

#[test]
fn emitting_forwards_other_keys_and_waits_for_key2_release() {
    let l = layer();
    let (s, _) = step(State::Idle, ev(KP1, true), 0, &l);
    let (s, _) = step(s, ev(KP1, false), 10_000, &l);
    let (s, _) = step(s, ev(KP2, true), 20_000, &l);
    assert_eq!(s, State::Emitting { seq_col: 0, key2_pos: KP2 });
    let (s, out) = step(s, ev(ENTER, true), 5_000_000, &l);
    assert_eq!(out, vec![fwd(ENTER, true)]);
    let (s, out) = step(s, Input::Timeout, 6_000_000, &l);
    assert!(out.is_empty());
    let (s, out) = step(s, ev(KP2, false), 7_000_000, &l);
    assert_eq!(out, vec![Output::Emit { col: 0, pressed: false }]);
    assert_eq!(s, State::Idle);
}

#[test]
fn idle_forwards_non_trigger_keys_at_once() {
    let (s, out) = run(&[(ev(ENTER, true), 0), (ev(ENTER, false), 1)]);
    assert_eq!(s, State::Idle);
    assert_eq!(out, vec![fwd(ENTER, true), fwd(ENTER, false)]);
}

#[test]
fn only_new_deadlines_need_room_in_the_tick_range() {
    let l = layer();
    let late = u64::MAX - 100;
    assert!(time_fits(u64::MAX - 300_000));
    assert!(!time_fits(u64::MAX - 299_999));
    // key 1 going down sets a deadline
    assert!(step_adds_duration(&State::Idle, &ev(KP1, true), late, &l));
    // a key that starts no sequence, a timeout, another event: no deadline
    assert!(!step_adds_duration(&State::Idle, &ev(ENTER, true), late, &l));
    assert!(!step_adds_duration(&State::Idle, &Input::Timeout, late, &l));
    assert!(!step_adds_duration(&State::Idle, &Input::Event(Event::Other), late, &l));
    let (s, out) = step(State::Idle, ev(ENTER, true), late, &l);
    assert_eq!(s, State::Idle);
    assert_eq!(out, vec![fwd(ENTER, true)]);
    // key 1 released within the tap term sets the gap deadline; a late release does not
    let held = held1(0, KP1, KeyboardEvent::key(KP1.0, KP1.1, true), 0);
    assert!(step_adds_duration(&held, &ev(KP1, false), 150_000, &l));
    assert!(!step_adds_duration(&held, &ev(KP1, false), 250_000, &l));
    // key 2 while key 1 is held fires without a deadline
    assert!(!step_adds_duration(&held, &ev(KP2, true), 10_000, &l));
}

/// Whether the forwarded key events pair presses and releases at every position.
fn forwarded_keys_paired(out: &[Output]) -> bool {
    let mut down: Vec<(u8, u8)> = Vec::new();
    for o in out {
        if let Output::Forward(Event::Key(kb)) = o {
            if let Some((r, c, p)) = decode_key_event(*kb) {
                let i = down.iter().position(|&q| q == (r, c));
                match (p, i) {
                    (true, None) => down.push((r, c)),
                    (false, Some(i)) => {
                        down.remove(i);
                    }
                    _ => return false,
                }
            }
        }
    }
    true
}

#[test]
fn long_trace_keeps_keys_paired_and_synthetic_events_alternating() {
    let (s, out) = run(&[
        (ev(KP1, true), 0),
        (ev(ENTER, true), 1_000),
        (Input::Event(Event::Other), 2_000),
        (ev(ENTER, false), 3_000),
        (ev(KP1, false), 400_000),
        (ev(KP1, true), 500_000),
        (ev(KP2, true), 510_000),
        (ev(ENTER, true), 520_000),
        (ev(KP1, false), 530_000),
        (ev(KP1, true), 540_000),
        (ev(KP2, false), 550_000),
        (ev(KP1, false), 560_000),
        (ev(ENTER, false), 570_000),
    ]);
    assert_eq!(s, State::Idle);
    assert!(forwarded_keys_paired(&out));
    let synth: Vec<(u8, bool)> = out
        .iter()
        .filter_map(|o| if let Output::Emit { col, pressed } = o { Some((*col, *pressed)) } else { None })
        .collect();
    assert_eq!(synth, vec![(0, true), (0, false)]);
    assert_eq!(
        out,
        vec![
            fwd(KP1, true),
            fwd(ENTER, true),
            Output::Forward(Event::Other),
            fwd(ENTER, false),
            fwd(KP1, false),
            Output::Emit { col: 0, pressed: true },
            fwd(ENTER, true),
            fwd(KP1, true),
            Output::Emit { col: 0, pressed: false },
            fwd(KP1, false),
            fwd(ENTER, false),
        ]
    );
}
