//! The duplex ("bidirectional") switch matrix of the Primer29.
//!
//! Nine pins drive the matrix: indices 0 to 4 are the row pins R0-R4 (GP5-GP9), indices 5 to 8
//! the column pins C0-C3 (GP29, GP28, GP27, GP26). Each switch sits between one row pin and one
//! column pin; the diode direction decides which pin drives and which reads. The matrix is
//! active-high: the driven pin is set high and the other pin is read.

use vstd::prelude::*;
use crate::keymap::{COL, ROW};

verus! {

use ScanLocation::{Ignore, Pins};

/// Physical pins of the duplex matrix (5 row pins and 4 column pins).
pub const PIN_NUM: usize = 9;
/// Pin indices below this are row pins; the others are column pins.
pub const ROW_PINS: u8 = 5;

/// Where the matrix scan finds the switch of a logical position.
#[derive(Clone, Copy, Debug, PartialEq, Eq, Structural)]
pub enum ScanLocation {
    /// The switch is read on pin `0` (input) while pin `1` (output) is driven high.
    Pins(u8, u8),
    /// No switch at this position.
    Ignore,
}

/// The logical positions without a switch: (1,6), (2,0), (2,1), (2,2), (3,6) and (4,3).
pub open spec fn unused_position(r: int, c: int) -> bool {
    ||| (r == 1 && c == 6)
    ||| (r == 2 && 0 <= c <= 2)
    ||| (r == 3 && c == 6)
    ||| (r == 4 && c == 3)
}

/// The scan location of logical position (`r`, `c`).
///
/// Even columns hold the switches labelled RxCy in the continuity test (QMK: row x drives,
/// column y reads); with active-high scanning the current runs the other way, so the row pin
/// is the input: `Pins(x, 5 + y)`. Odd columns hold the switches labelled CyRx:
/// `Pins(5 + y, x)`. In both cases `y` is `c / 2`.
pub open spec fn scan_location(r: int, c: int) -> ScanLocation {
    if unused_position(r, c) {
        ScanLocation::Ignore
    } else if c % 2 == 0 {
        ScanLocation::Pins(r as u8, (ROW_PINS + c / 2) as u8)
    } else {
        ScanLocation::Pins((ROW_PINS + c / 2) as u8, r as u8)
    }
}

/// Whether logical position (`r`, `c`) holds a switch.
pub open spec fn has_switch(r: int, c: int) -> bool {
    0 <= r < ROW && 0 <= c < COL && !unused_position(r, c)
}

/// Number of switches among the first `n` positions in row-major order.
pub open spec fn switches_before(n: nat) -> nat
    decreases n,
{
    if n == 0 {
        0
    } else {
        let i = (n - 1) as int;
        switches_before((n - 1) as nat) + if has_switch(i / (COL as int), i % (COL as int)) { 1nat } else { 0nat }
    }
}

/// The scan map of the Primer29: for each logical position, where its switch is read.
pub fn scan_map() -> (m: [[ScanLocation; COL]; ROW])
    ensures
        forall|r: int, c: int|
            0 <= r < ROW && 0 <= c < COL ==> #[trigger] m@[r]@[c] == scan_location(r, c),
{
    let m = [
        // Row0: R0C0, C0R0, R0C1, C1R0, R0C2, C2R0, R0C3
        [Pins(0, 5), Pins(5, 0), Pins(0, 6), Pins(6, 0), Pins(0, 7), Pins(7, 0), Pins(0, 8)],
        // Row1: R1C0, C0R1, R1C1, C1R1, R1C2, C2R1, (none)
        [Pins(1, 5), Pins(5, 1), Pins(1, 6), Pins(6, 1), Pins(1, 7), Pins(7, 1), Ignore],
        // Row2: (none), (none), (none), C1R2, R2C2, C2R2, R2C3 (2u "+")
        [Ignore, Ignore, Ignore, Pins(6, 2), Pins(2, 7), Pins(7, 2), Pins(2, 8)],
        // Row3: R3C0, C0R3, R3C1, C1R3, R3C2, C2R3, (none)
        [Pins(3, 5), Pins(5, 3), Pins(3, 6), Pins(6, 3), Pins(3, 7), Pins(7, 3), Ignore],
        // Row4: R4C0, C0R4, R4C1, (none), R4C2 (2u "0"), C2R4, R4C3 (2u Enter)
        [Pins(4, 5), Pins(5, 4), Pins(4, 6), Ignore, Pins(4, 7), Pins(7, 4), Pins(4, 8)],
    ];
    m
}

/// Every switch connects one row pin with one column pin, both among the nine matrix pins.
pub proof fn lemma_switch_pins_are_row_and_column(r: int, c: int)
    requires
        0 <= r < ROW,
        0 <= c < COL,
    ensures
        scan_location(r, c) matches ScanLocation::Pins(i, o) ==> {
            &&& i < PIN_NUM && o < PIN_NUM
            &&& (i < ROW_PINS) != (o < ROW_PINS)
        },
{
}

/// No two positions share a switch: distinct positions with switches have distinct pin pairs,
/// so the scan can tell every switch apart.
pub proof fn lemma_scan_locations_distinct(r1: int, c1: int, r2: int, c2: int)
    requires
        has_switch(r1, c1),
        has_switch(r2, c2),
        r1 != r2 || c1 != c2,
    ensures
        scan_location(r1, c1) != scan_location(r2, c2),
{
}

/// A position is ignored by the scan exactly when it has no switch.
pub proof fn lemma_ignored_iff_no_switch(r: int, c: int)
    requires
        0 <= r < ROW,
        0 <= c < COL,
    ensures
        (scan_location(r, c) == ScanLocation::Ignore) == !has_switch(r, c),
{
}

/// The matrix holds 29 switches.
pub proof fn lemma_twenty_nine_switches()
    ensures
        switches_before((ROW * COL) as nat) == 29,
{
    reveal_with_fuel(switches_before, 36);
}

/// The scan follows the wiring rule of the continuity test in every row: the switch at an even
/// column `c` (label RrCy, y = c / 2) is read on row pin `r` while column pin `5 + y` is
/// driven; the switch at an odd column (label CyRr) is read on column pin `5 + y` while row
/// pin `r` is driven.
pub proof fn lemma_scan_follows_wiring_rule(r: int, c: int)
    requires
        has_switch(r, c),
    ensures
        c % 2 == 0 ==> scan_location(r, c) == ScanLocation::Pins(r as u8, (5 + c / 2) as u8),
        c % 2 == 1 ==> scan_location(r, c) == ScanLocation::Pins((5 + c / 2) as u8, r as u8),
{
}

/// All rows are wired alike: for two switches in the same column, the row pin is the input of
/// one exactly when it is the input of the other, and both use the same column pin.
pub proof fn lemma_rows_wired_alike(r1: int, r2: int, c: int)
    requires
        has_switch(r1, c),
        has_switch(r2, c),
    ensures
        scan_location(r1, c) matches ScanLocation::Pins(i1, o1) && scan_location(r2, c) matches ScanLocation::Pins(
            i2,
            o2,
        ) && (i1 == r1) == (i2 == r2) && (i1 == r1 ==> o1 == o2) && (o1 == r1 ==> i1 == i2),
{
}

} // verus!
