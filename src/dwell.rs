//! Dwell timers: a state is held for a fixed duration before its completion
//! transition fires. Durations are counted in nanoseconds.
use vstd::prelude::*;

verus! {

/// How long every non-rest state is held before it completes, in nanoseconds.
pub const DWELL_NANOS: u64 = 2_000_000_000;

/// `a + b`, clamped to the largest representable duration.
pub open spec fn sat_add(a: u64, b: u64) -> u64 {
    if a + b > u64::MAX {
        u64::MAX
    } else {
        (a + b) as u64
    }
}

/// What is left of an elapsed time once every whole dwell period that it
/// strictly exceeds has been consumed.
pub open spec fn drained(d: u64) -> u64
    decreases d,
{
    if d > DWELL_NANOS {
        drained((d - DWELL_NANOS) as u64)
    } else {
        d
    }
}

} // verus!
