//! Timer tick source: the policy side.
//!
//! Programming the hardware timer and installing the interrupt handler are
//! architecture work outside this library; the handler calls the scheduler's
//! `tick`. What the library fixes is the accepted frequency band.

use vstd::prelude::*;

verus! {

/// Lowest accepted timer frequency, in Hz.
pub const MIN_TIMER_HZ: u64 = 1;

/// Highest accepted timer frequency, in Hz.
pub const MAX_TIMER_HZ: u64 = 1000;

/// Whether `hz` is a frequency the timer layer accepts; anything outside the
/// band is rejected before the hardware is touched.
pub fn validate_timer_frequency(hz: u64) -> (ok: bool)
    ensures
        ok <==> MIN_TIMER_HZ <= hz <= MAX_TIMER_HZ,
{
    MIN_TIMER_HZ <= hz && hz <= MAX_TIMER_HZ
}

} // verus!
