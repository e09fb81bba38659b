//! The counter: the one value that the pair produces, owned by whichever
//! process holds the primary role.

use vstd::prelude::*;

verus! {

/// The first value that a primary emits when nothing was handed to it.
pub const INITIAL_COUNTER: u64 = 1;

/// The value that follows `value`. The counter has 64 bits and starts
/// again at zero after the largest value.
pub open spec fn successor(value: u64) -> u64 {
    if value == u64::MAX {
        0
    } else {
        (value + 1) as u64
    }
}

/// The value that lies `steps` values after `value`.
pub open spec fn advanced(value: u64, steps: nat) -> u64
    decreases steps,
{
    if steps == 0 {
        value
    } else {
        successor(advanced(value, (steps - 1) as nat))
    }
}

/// Computes the value that follows `value`.
pub fn next_counter(value: u64) -> (next: u64)
    ensures
        next == successor(value),
{
    value.wrapping_add(1)
}

/// As long as the largest value is not passed, `steps` values further is
/// `steps` more.
pub proof fn lemma_advanced_adds(value: u64, steps: nat)
    requires
        value + steps <= u64::MAX,
    ensures
        advanced(value, steps) == value + steps,
    decreases steps,
{
    if steps > 0 {
        lemma_advanced_adds(value, (steps - 1) as nat);
    }
}

/// Whatever the start, `steps` values further is `steps` more, counted
/// modulo two to the power 64.
pub proof fn lemma_advanced_wraps(value: u64, steps: nat)
    ensures
        advanced(value, steps) == (value + steps) % 0x1_0000_0000_0000_0000,
    decreases steps,
{
    if steps > 0 {
        lemma_advanced_wraps(value, (steps - 1) as nat);
    }
}

} // verus!
