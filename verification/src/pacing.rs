//! Fixed-rate pacing: how long to pause between two actions.

use vstd::prelude::*;

verus! {

/// Microseconds in one second.
pub const MICROS_PER_SECOND: u64 = 1_000_000;

/// The pause between two actions at `rate` actions per second, in whole
/// microseconds. A rate of zero never acts again: the pause is the longest
/// one that can be written down.
pub open spec fn spec_interval_micros(rate: nat) -> nat {
    if rate == 0 {
        u64::MAX as nat
    } else {
        MICROS_PER_SECOND as nat / rate
    }
}

/// Computes the pause that belongs to `rate`.
pub fn interval_micros(rate: usize) -> (interval: u64)
    ensures
        interval == spec_interval_micros(rate as nat),
        rate > 0 ==> interval <= MICROS_PER_SECOND,
{
    if rate == 0 {
        u64::MAX
    } else {
        MICROS_PER_SECOND / (rate as u64)
    }
}

} // verus!
