use primer29::action::{self, Action, KeyAction};
use primer29::keymap::{get_default_keymap, COL, NUM_LAYER, ROW};
use primer29::matrix::{scan_map, ScanLocation, PIN_NUM, ROW_PINS};

#[test]
fn layer0_matches_the_layout_table() {
    let km = get_default_keymap();
    let k = |c: u16| KeyAction::Single(Action::Key(c));
    let n = KeyAction::No;
    let expected = [
        [k(action::INSERT), k(action::HOME), k(action::PAGE_UP), k(action::NUM_LOCK), k(action::KP_MINUS), k(action::KP_ASTERISK), k(action::KP_SLASH)],
        [k(action::DELETE), k(action::END), k(action::PAGE_DOWN), k(action::KP_7), k(action::KP_8), k(action::KP_9), n],
        [n, n, n, k(action::KP_4), k(action::KP_5), k(action::KP_6), k(action::KP_PLUS)],
        [k(action::L_SHIFT), k(action::UP), k(action::L_CTRL), k(action::KP_1), k(action::KP_2), k(action::KP_3), n],
        [k(action::LEFT), k(action::DOWN), k(action::RIGHT), n, k(action::KP_0), k(action::KP_DOT), k(action::KP_ENTER)],
    ];
    assert_eq!(km[0], expected);
}

#[test]
fn keycodes_are_hid_usage_ids() {
    assert_eq!(action::INSERT, 0x49);
    assert_eq!(action::KP_SLASH, 0x54);
    assert_eq!(action::KP_0, 0x62);
    assert_eq!(action::L_SHIFT, 0xE1);
    assert_eq!(KeyAction::key(action::HOME), KeyAction::Single(Action::Key(0x4A)));
}

#[test]
fn vial_unlock_keys_are_insert_and_slash() {
    let km = get_default_keymap();
    assert_eq!(km[0][0][0], KeyAction::key(action::INSERT));
    assert_eq!(km[0][0][6], KeyAction::key(action::KP_SLASH));
}

#[test]
fn upper_layers_are_transparent_except_unused_cells() {
    let km = get_default_keymap();
    for l in 1..NUM_LAYER {
        for r in 0..ROW {
            for c in 0..COL {
                let unused = matches!(scan_map()[r][c], ScanLocation::Ignore);
                let want = if unused { KeyAction::No } else { KeyAction::Transparent };
                assert_eq!(km[l][r][c], want, "layer {} cell ({}, {})", l, r, c);
            }
        }
    }
}

#[test]
fn no_cells_coincide_with_ignored_scan_positions() {
    let km = get_default_keymap();
    let m = scan_map();
    for l in 0..NUM_LAYER {
        for r in 0..ROW {
            for c in 0..COL {
                assert_eq!(km[l][r][c] == KeyAction::No, m[r][c] == ScanLocation::Ignore);
            }
        }
    }
}

#[test]
fn layer0_keycodes_are_distinct() {
    let km = get_default_keymap();
    let mut codes = Vec::new();
    for r in 0..ROW {
        for c in 0..COL {
            if let KeyAction::Single(Action::Key(code)) = km[0][r][c] {
                assert!(!codes.contains(&code));
                codes.push(code);
            }
        }
    }
    assert_eq!(codes.len(), 29);
}

#[test]
fn scan_map_has_twenty_nine_switches() {
    let m = scan_map();
    let count = m.iter().flatten().filter(|l| matches!(l, ScanLocation::Pins(_, _))).count();
    assert_eq!(count, 29);
}

#[test]
fn scan_map_rows_as_wired() {
    let m = scan_map();
    assert_eq!(m[0], [ScanLocation::Pins(0, 5), ScanLocation::Pins(5, 0), ScanLocation::Pins(0, 6), ScanLocation::Pins(6, 0), ScanLocation::Pins(0, 7), ScanLocation::Pins(7, 0), ScanLocation::Pins(0, 8)]);
    assert_eq!(m[2], [ScanLocation::Ignore, ScanLocation::Ignore, ScanLocation::Ignore, ScanLocation::Pins(6, 2), ScanLocation::Pins(2, 7), ScanLocation::Pins(7, 2), ScanLocation::Pins(2, 8)]);
    assert_eq!(m[4], [ScanLocation::Pins(4, 5), ScanLocation::Pins(5, 4), ScanLocation::Pins(4, 6), ScanLocation::Ignore, ScanLocation::Pins(4, 7), ScanLocation::Pins(7, 4), ScanLocation::Pins(4, 8)]);
}

#[test]
fn scan_map_pin_pairs_are_distinct_and_cross_row_and_column() {
    let m = scan_map();
    let mut seen = Vec::new();
    for row in m.iter() {
        for loc in row.iter() {
            if let ScanLocation::Pins(i, o) = *loc {
                assert!((i as usize) < PIN_NUM && (o as usize) < PIN_NUM);
                assert_ne!(i < ROW_PINS, o < ROW_PINS);
                assert!(!seen.contains(&(i, o)));
                seen.push((i, o));
            }
        }
    }
}
