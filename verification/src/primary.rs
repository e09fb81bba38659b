//! The primary loop: one value of counter progress per tick.

use crate::counter::{advanced, lemma_advanced_adds, next_counter, successor, INITIAL_COUNTER};
use crate::heartbeat::{encode_heartbeat, heartbeat_payload};
use crate::timing::TICK_INTERVAL_NANOS;
use vstd::prelude::*;

verus! {

/// What a primary does in one tick, in this order: publish `value`, send
/// `heartbeat` to the rendezvous address without waiting for an answer,
/// then sleep for `sleep_nanos`. Whether the send succeeds has no bearing
/// on the next tick.
#[derive(Debug, PartialEq, Eq)]
pub struct Tick {
    pub value: u64,
    pub heartbeat: Vec<u8>,
    pub sleep_nanos: u64,
}

/// The state of a primary: the value that its next tick emits.
#[derive(Clone, Copy, Debug, PartialEq, Eq, Structural)]
pub struct PrimaryLoop {
    pub next: u64,
}

impl PrimaryLoop {
    /// The state after one tick.
    pub open spec fn after_tick(self) -> PrimaryLoop {
        PrimaryLoop { next: successor(self.next) }
    }

    /// The state after `count` ticks.
    pub open spec fn after_ticks(self, count: nat) -> PrimaryLoop
        decreases count,
    {
        if count == 0 {
            self
        } else {
            self.after_ticks((count - 1) as nat).after_tick()
        }
    }

    /// The value that the tick with the given index emits, the first tick
    /// having index zero.
    pub open spec fn emitted(self, index: nat) -> u64 {
        self.after_ticks(index).next
    }

    /// A primary that starts from nothing.
    pub fn fresh() -> (primary: Self)
        ensures
            primary.next == INITIAL_COUNTER,
    {
        PrimaryLoop { next: INITIAL_COUNTER }
    }

    /// A primary that carries on from a counter that was handed to it.
    pub fn resume(counter: u64) -> (primary: Self)
        ensures
            primary.next == counter,
    {
        PrimaryLoop { next: counter }
    }

    /// Performs the counter's part of one tick: reads the counter, steps
    /// it, and says what to publish and send.
    pub fn tick(&mut self) -> (tick: Tick)
        ensures
            tick.value == old(self).next,
            tick.heartbeat@ == heartbeat_payload(old(self).next as nat),
            tick.sleep_nanos == TICK_INTERVAL_NANOS,
            *final(self) == old(self).after_tick(),
    {
        let value: u64 = self.next;
        self.next = next_counter(value);
        Tick { value, heartbeat: encode_heartbeat(value), sleep_nanos: TICK_INTERVAL_NANOS }
    }
}

/// The state after `count` ticks holds the value that lies `count` values
/// after the first.
pub proof fn lemma_ticks_advance(primary: PrimaryLoop, count: nat)
    ensures
        primary.after_ticks(count).next == advanced(primary.next, count),
    decreases count,
{
    if count > 0 {
        lemma_ticks_advance(primary, (count - 1) as nat);
    }
}

/// A primary emits its values in steps of exactly one: as long as the
/// counter has not reached its largest value, each tick emits one more
/// than the tick before it, and the tick with index `index` emits the
/// first value plus `index`.
pub proof fn lemma_emits_in_steps_of_one(primary: PrimaryLoop, index: nat)
    requires
        primary.next + index + 1 <= u64::MAX,
    ensures
        primary.emitted(index) == primary.next + index,
        primary.emitted(index + 1) == primary.emitted(index) + 1,
{
    lemma_ticks_advance(primary, index);
    lemma_ticks_advance(primary, index + 1);
    lemma_advanced_adds(primary.next, index);
    lemma_advanced_adds(primary.next, index + 1);
}

/// The values of a primary increase strictly from tick to tick, as long as
/// the counter does not pass its largest value.
pub proof fn lemma_emits_increasing(primary: PrimaryLoop, earlier: nat, later: nat)
    requires
        earlier < later,
        primary.next + later <= u64::MAX,
    ensures
        primary.emitted(earlier) < primary.emitted(later),
{
    lemma_ticks_advance(primary, earlier);
    lemma_ticks_advance(primary, later);
    lemma_advanced_adds(primary.next, earlier);
    lemma_advanced_adds(primary.next, later);
}

} // verus!
