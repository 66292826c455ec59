//! Tick arithmetic for the timeouts of the sequence engine.
//!
//! An instant is its tick count since boot (`embassy_time::Instant` holds exactly that),
//! so deadlines are plain `u64` tick counts here.

use vstd::prelude::*;

verus! {

/// Tap term: releasing key 1 within this many milliseconds after pressing it is a tap.
pub const TAP_TERM_MS: u64 = 200;

/// Sequence gap: after tapping key 1, key 2 must be pressed within this many milliseconds.
pub const SEQ_GAP_MS: u64 = 300;

/// Overlap window: while key 1 is held, pressing key 2 within this many milliseconds fires
/// the sequence; past it, key 1 is an ordinary held key.
pub const SEQ_OVERLAP_MS: u64 = 300;

/// Ticks per millisecond of the embassy time base (1 MHz tick rate).
pub const TICKS_PER_MS: u64 = 1000;

/// Calls `embassy_time::Duration::from_millis` and returns the tick count of the result.
///
/// Claimed of it: the duration has `ms * 1000` ticks. `from_millis` computes
/// `div_ceil(ms * (TICK_HZ / gcd), 1000 / gcd)` with `gcd = gcd(TICK_HZ, 1000)`, and in this
/// crate graph `TICK_HZ` is 1 000 000 (embassy-rp's `time-driver` feature selects
/// embassy-time-driver's `tick-hz-1_000_000`, which is also that crate's default), so the
/// quotient is exact. The bound on `ms` keeps the multiplication from overflowing.
#[verifier::external_body]
pub(crate) fn duration_ticks_from_millis(ms: u64) -> (ticks: u64)
    requires
        ms <= u64::MAX / TICKS_PER_MS,
    ensures
        ticks == ms * TICKS_PER_MS,
{
    embassy_time::Duration::from_millis(ms).as_ticks()
}

} // verus!
