//! Time on the monotonic clock, in nanoseconds.

use vstd::prelude::*;

verus! {

/// Nanoseconds in a second.
pub const SECOND: u64 = 1_000_000_000;

/// Nanoseconds in a millisecond.
pub const MILLISECOND: u64 = 1_000_000;

/// The latest time that the clock is taken to show, some 292 years after it
/// started.
pub const TIME_LIMIT: u64 = 0x7FFF_FFFF_FFFF_FFFF;

} // verus!
