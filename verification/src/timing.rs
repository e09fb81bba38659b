//! The clock of the failover pair: readings of a monotonic clock in
//! nanoseconds, and the fixed intervals of the protocol.

use vstd::prelude::*;

verus! {

/// How long a backup waits for one datagram before it looks at the clock.
pub const HEARTBEAT_INTERVAL_NANOS: u64 = 500_000_000;

/// How many heartbeat intervals of silence a backup tolerates.
pub const TOLERATED_INTERVALS: u64 = 4;

/// The silence after which a backup takes the primary for dead. Only a
/// longer silence leads to promotion.
pub const FAILURE_THRESHOLD_NANOS: u64 = TOLERATED_INTERVALS * HEARTBEAT_INTERVAL_NANOS;

/// How long a primary sleeps between two values.
pub const TICK_INTERVAL_NANOS: u64 = 1_000_000_000;

/// The time that has passed at the reading `now` since the reading `since`.
/// A reading that lies before `since` counts as no time at all.
pub open spec fn elapsed(since: u64, now: u64) -> u64 {
    if now >= since {
        (now - since) as u64
    } else {
        0
    }
}

/// The time between two clock readings.
pub fn elapsed_between(since: u64, now: u64) -> (nanos: u64)
    ensures
        nanos == elapsed(since, now),
{
    if now >= since {
        now - since
    } else {
        0
    }
}

/// Whether the silence between two clock readings is longer than a backup
/// tolerates.
pub open spec fn silence_exceeded(since: u64, now: u64) -> bool {
    elapsed(since, now) > FAILURE_THRESHOLD_NANOS
}

} // verus!
