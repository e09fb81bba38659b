//! The backup monitor: a backup listens for heartbeats, keeps the last
//! counter it heard, and promotes itself when the primary falls silent.

use crate::counter::{lemma_advanced_adds, INITIAL_COUNTER};
use crate::heartbeat::{
    decode_heartbeat, heartbeat_payload, heartbeat_value, lemma_heartbeat_round_trip,
};
use crate::primary::{lemma_ticks_advance, PrimaryLoop};
use crate::timing::{elapsed_between, silence_exceeded, FAILURE_THRESHOLD_NANOS};
use vstd::prelude::*;

verus! {

/// Where a monitor stands. `Promoting` is final: the monitor has asked for
/// the take-over and does nothing more.
#[derive(Clone, Copy, Debug, PartialEq, Eq, Structural)]
pub enum MonitorPhase {
    Listening,
    Promoting,
}

/// What one bounded wait on the heartbeat channel brought.
#[derive(Debug, PartialEq, Eq)]
pub enum Reception {
    /// A datagram arrived; `received_at` is the clock reading taken on
    /// its arrival.
    Datagram { payload: Vec<u8>, received_at: u64 },
    /// Nothing arrived within the wait.
    TimedOut,
    /// The transport reported another error. It counts as a missed beat.
    Failed,
}

/// One turn of the monitor: what the wait brought, and the clock reading
/// taken after it was dealt with.
#[derive(Debug, PartialEq, Eq)]
pub struct Poll {
    pub reception: Reception,
    pub checked_at: u64,
}

/// What the monitor asks of its caller after a turn.
#[derive(Clone, Copy, Debug, PartialEq, Eq, Structural)]
pub enum MonitorAction {
    /// Wait for the next datagram.
    KeepListening,
    /// The primary is taken for dead: ask the launcher for a new backup,
    /// then leave the monitor and run the primary loop with its counter.
    Promote,
    /// The take-over was asked for before; nothing is left to do.
    Finished,
}

/// The state of a backup.
#[derive(Clone, Copy, Debug, PartialEq, Eq, Structural)]
pub struct BackupMonitor {
    /// The last counter value that a heartbeat carried, or the initial
    /// value if none did.
    pub counter: u64,
    /// The clock reading of the last datagram's arrival, or of the
    /// monitor's start if none arrived.
    pub last_heartbeat: u64,
    pub phase: MonitorPhase,
}

impl Reception {
    /// Whether the wait brought a datagram.
    pub open spec fn heard(self) -> bool {
        self is Datagram
    }
}

impl BackupMonitor {
    /// The monitor as it starts at the clock reading `now`.
    pub open spec fn started(now: u64) -> BackupMonitor {
        BackupMonitor {
            counter: INITIAL_COUNTER,
            last_heartbeat: now,
            phase: MonitorPhase::Listening,
        }
    }

    /// The state after the monitor has taken note of `reception`. Every
    /// datagram renews the time of the last heartbeat, since its arrival
    /// shows that the primary lives; it replaces the counter only if its
    /// payload carries a value. A wait that brought nothing changes
    /// nothing, and neither does anything once the monitor is promoting.
    pub open spec fn observed(self, reception: Reception) -> BackupMonitor {
        match (self.phase, reception) {
            (MonitorPhase::Listening, Reception::Datagram { payload, received_at }) => {
                BackupMonitor {
                    counter: match heartbeat_value(payload@) {
                        Some(value) => value,
                        None => self.counter,
                    },
                    last_heartbeat: received_at,
                    phase: MonitorPhase::Listening,
                }
            },
            _ => self,
        }
    }

    /// What the monitor asks for at the clock reading `now`: the take-over
    /// if it is listening and the silence since the last heartbeat is
    /// longer than the failure threshold.
    pub open spec fn decision(self, now: u64) -> MonitorAction {
        match self.phase {
            MonitorPhase::Promoting => MonitorAction::Finished,
            MonitorPhase::Listening => if silence_exceeded(self.last_heartbeat, now) {
                MonitorAction::Promote
            } else {
                MonitorAction::KeepListening
            },
        }
    }

    /// The state after the monitor has looked at the clock reading `now`.
    pub open spec fn evaluated(self, now: u64) -> BackupMonitor {
        if self.decision(now) is Promote {
            BackupMonitor {
                counter: self.counter,
                last_heartbeat: self.last_heartbeat,
                phase: MonitorPhase::Promoting,
            }
        } else {
            self
        }
    }

    /// The state after one turn.
    pub open spec fn stepped(self, poll: Poll) -> BackupMonitor {
        self.observed(poll.reception).evaluated(poll.checked_at)
    }

    /// What the monitor asks for at the end of one turn.
    pub open spec fn asked(self, poll: Poll) -> MonitorAction {
        self.observed(poll.reception).decision(poll.checked_at)
    }

    /// The state after the turns `polls`, in their order.
    pub open spec fn run(self, polls: Seq<Poll>) -> BackupMonitor
        decreases polls.len(),
    {
        if polls.len() == 0 {
            self
        } else {
            self.run(polls.drop_last()).stepped(polls.last())
        }
    }

    /// How many of the turns `polls` end with the monitor asking for the
    /// take-over.
    pub open spec fn promotions(self, polls: Seq<Poll>) -> nat
        decreases polls.len(),
    {
        if polls.len() == 0 {
            0
        } else {
            let asked_last: nat = if self.run(polls.drop_last()).asked(polls.last()) is Promote {
                1
            } else {
                0
            };
            self.promotions(polls.drop_last()) + asked_last
        }
    }

    /// What the monitor asks for at the end of the turn with the given
    /// index, after the turns before it.
    pub open spec fn asked_at(self, polls: Seq<Poll>, index: int) -> MonitorAction
        recommends
            0 <= index < polls.len(),
    {
        self.run(polls.subrange(0, index)).asked(polls[index])
    }

    /// The primary loop that takes over from this monitor, if the monitor
    /// is promoting.
    pub open spec fn successor(self) -> Option<PrimaryLoop> {
        match self.phase {
            MonitorPhase::Promoting => Some(PrimaryLoop { next: self.counter }),
            MonitorPhase::Listening => None,
        }
    }

    /// Starts a monitor. The time of the last heartbeat starts at `now`,
    /// so that a primary gets the whole failure threshold to send its
    /// first heartbeat.
    pub fn new(now: u64) -> (monitor: Self)
        ensures
            monitor == BackupMonitor::started(now),
    {
        BackupMonitor { counter: INITIAL_COUNTER, last_heartbeat: now, phase: MonitorPhase::Listening }
    }

    /// Takes note of what one wait brought. While the monitor listens,
    /// a datagram sets the time of the last heartbeat to the time of its
    /// arrival whatever it carries, and sets the counter to the value it
    /// carries if it carries one.
    pub fn observe(&mut self, reception: &Reception)
        ensures
            *final(self) == old(self).observed(*reception),
            old(self).phase is Listening ==> (*reception matches Reception::Datagram {
                payload,
                received_at,
            } ==> final(self).last_heartbeat == received_at && final(self).counter == (
            match heartbeat_value(payload@) {
                Some(value) => value,
                None => old(self).counter,
            })),
            final(self).phase == old(self).phase,
    {
        match self.phase {
            MonitorPhase::Promoting => {},
            MonitorPhase::Listening => match reception {
                Reception::Datagram { payload, received_at } => {
                    match decode_heartbeat(payload.as_slice()) {
                        Some(value) => {
                            self.counter = value;
                        },
                        None => {},
                    }
                    self.last_heartbeat = *received_at;
                },
                Reception::TimedOut => {},
                Reception::Failed => {},
            },
        }
    }

    /// Looks at the clock and decides whether the primary is dead.
    pub fn evaluate(&mut self, now: u64) -> (action: MonitorAction)
        ensures
            action == old(self).decision(now),
            *final(self) == old(self).evaluated(now),
    {
        match self.phase {
            MonitorPhase::Promoting => MonitorAction::Finished,
            MonitorPhase::Listening => {
                if elapsed_between(self.last_heartbeat, now) > FAILURE_THRESHOLD_NANOS {
                    self.phase = MonitorPhase::Promoting;
                    MonitorAction::Promote
                } else {
                    MonitorAction::KeepListening
                }
            },
        }
    }

    /// Performs one turn: takes note of what the wait brought, then looks
    /// at the clock.
    pub fn step(&mut self, poll: &Poll) -> (action: MonitorAction)
        ensures
            action == old(self).asked(*poll),
            *final(self) == old(self).stepped(*poll),
    {
        self.observe(&poll.reception);
        self.evaluate(poll.checked_at)
    }

    /// Hands the counter over to the primary loop that this process runs
    /// from now on. Only a monitor that is promoting has a successor.
    pub fn into_primary(self) -> (primary: Option<PrimaryLoop>)
        ensures
            primary == self.successor(),
    {
        match self.phase {
            MonitorPhase::Promoting => Some(PrimaryLoop::resume(self.counter)),
            MonitorPhase::Listening => None,
        }
    }
}

impl Poll {
    /// Whether nothing was heard in this turn: the wait timed out or
    /// failed.
    pub open spec fn silent(self) -> bool {
        !self.reception.heard()
    }
}

/// Whether nothing was heard in any of the turns `polls`.
pub open spec fn all_silent(polls: Seq<Poll>) -> bool {
    forall|i: int| 0 <= i < polls.len() ==> (#[trigger] polls[i]).silent()
}

/// The counter that a backup holds after it has listened through the turns
/// `polls`, having held `counter` before: the value of the last datagram
/// that carried one.
pub open spec fn heard_counter(counter: u64, polls: Seq<Poll>) -> u64
    decreases polls.len(),
{
    if polls.len() == 0 {
        counter
    } else {
        let before = heard_counter(counter, polls.drop_last());
        match polls.last().reception {
            Reception::Datagram { payload, received_at } => match heartbeat_value(payload@) {
                Some(value) => value,
                None => before,
            },
            _ => before,
        }
    }
}

/// Promotion is final: a monitor that is promoting stays as it is whatever
/// it is fed, and never asks for the take-over again.
pub proof fn lemma_promoting_is_final(monitor: BackupMonitor, polls: Seq<Poll>)
    requires
        monitor.phase is Promoting,
    ensures
        monitor.run(polls) == monitor,
        monitor.promotions(polls) == 0,
    decreases polls.len(),
{
    if polls.len() > 0 {
        lemma_promoting_is_final(monitor, polls.drop_last());
    }
}

/// The change of role goes one way: if a monitor is promoting after some
/// turns, it is promoting after any further turns too.
pub proof fn lemma_promotion_is_one_way(monitor: BackupMonitor, polls: Seq<Poll>, more: Seq<Poll>)
    requires
        monitor.run(polls).phase is Promoting,
    ensures
        monitor.run(polls + more) == monitor.run(polls),
    decreases more.len(),
{
    if more.len() == 0 {
        assert(polls + more =~= polls);
    } else {
        assert((polls + more).drop_last() =~= polls + more.drop_last());
        assert((polls + more).last() == more.last());
        lemma_promotion_is_one_way(monitor, polls, more.drop_last());
    }
}

/// Over any turns a monitor asks for the take-over at most once, and it
/// does so exactly if the turns lead it from listening to promoting.
pub proof fn lemma_promotes_at_most_once(monitor: BackupMonitor, polls: Seq<Poll>)
    ensures
        monitor.promotions(polls) <= 1,
        monitor.promotions(polls) == 1 <==> (monitor.phase is Listening && monitor.run(
            polls,
        ).phase is Promoting),
    decreases polls.len(),
{
    if monitor.phase is Promoting {
        lemma_promoting_is_final(monitor, polls);
    } else if polls.len() > 0 {
        lemma_promotes_at_most_once(monitor, polls.drop_last());
    }
}

/// As long as nothing is heard and the silence is within the failure
/// threshold at every look at the clock, a listening monitor neither
/// changes nor asks for the take-over.
pub proof fn lemma_no_promotion_within_threshold(monitor: BackupMonitor, polls: Seq<Poll>)
    requires
        monitor.phase is Listening,
        all_silent(polls),
        forall|i: int|
            0 <= i < polls.len() ==> !silence_exceeded(
                monitor.last_heartbeat,
                (#[trigger] polls[i]).checked_at,
            ),
    ensures
        monitor.run(polls) == monitor,
        monitor.promotions(polls) == 0,
    decreases polls.len(),
{
    if polls.len() > 0 {
        let before = polls.drop_last();
        assert forall|i: int| 0 <= i < before.len() implies (#[trigger] before[i]).silent()
            && !silence_exceeded(monitor.last_heartbeat, before[i].checked_at) by {
            assert(before[i] == polls[i]);
        }
        lemma_no_promotion_within_threshold(monitor, before);
        assert(polls.last() == polls[polls.len() - 1]);
        assert(polls.last().silent());
    }
}

/// If nothing is heard for longer than the failure threshold, exactly one
/// promotion occurs: over turns in which no datagram arrives and the last
/// of which finds the silence longer than the threshold, a listening
/// monitor asks for the take-over exactly once, and ends promoting with
/// the counter it had.
pub proof fn lemma_silence_promotes_exactly_once(monitor: BackupMonitor, polls: Seq<Poll>)
    requires
        monitor.phase is Listening,
        polls.len() > 0,
        all_silent(polls),
        silence_exceeded(monitor.last_heartbeat, polls.last().checked_at),
    ensures
        monitor.promotions(polls) == 1,
        monitor.run(polls).phase is Promoting,
        monitor.run(polls).counter == monitor.counter,
        monitor.run(polls).last_heartbeat == monitor.last_heartbeat,
{
    lemma_silent_turns_keep_what_was_heard(monitor, polls.drop_last());
    assert(polls.last() == polls[polls.len() - 1]);
    assert(polls.last().silent());
    lemma_promotes_at_most_once(monitor, polls);
}

/// The promotion occurs at the moment the silence passes the threshold,
/// not before and not again: over turns in which no datagram arrives, a
/// listening monitor keeps listening at every look at the clock that
/// finds the silence within the failure threshold, asks for the take-over
/// at the first look that finds it longer, and has finished at every look
/// after that.
pub proof fn lemma_silence_promotes_at_first_excess(
    monitor: BackupMonitor,
    polls: Seq<Poll>,
    first: int,
)
    requires
        monitor.phase is Listening,
        all_silent(polls),
        0 <= first < polls.len(),
        silence_exceeded(monitor.last_heartbeat, polls[first].checked_at),
        forall|i: int|
            0 <= i < first ==> !silence_exceeded(
                monitor.last_heartbeat,
                (#[trigger] polls[i]).checked_at,
            ),
    ensures
        forall|i: int| 0 <= i < first ==> #[trigger] monitor.asked_at(polls, i) is KeepListening,
        monitor.asked_at(polls, first) is Promote,
        forall|i: int| first < i < polls.len() ==> #[trigger] monitor.asked_at(polls, i) is Finished,
        monitor.promotions(polls) == 1,
{
    let quiet = polls.subrange(0, first);
    assert forall|i: int| 0 <= i < quiet.len() implies (#[trigger] quiet[i]).silent()
        && !silence_exceeded(monitor.last_heartbeat, quiet[i].checked_at) by {
        assert(quiet[i] == polls[i]);
    }
    lemma_no_promotion_within_threshold(monitor, quiet);
    assert(polls[first].silent());
    assert forall|i: int| 0 <= i < first implies #[trigger] monitor.asked_at(
        polls,
        i,
    ) is KeepListening by {
        let before = polls.subrange(0, i);
        assert forall|j: int| 0 <= j < before.len() implies (#[trigger] before[j]).silent()
            && !silence_exceeded(monitor.last_heartbeat, before[j].checked_at) by {
            assert(before[j] == polls[j]);
        }
        lemma_no_promotion_within_threshold(monitor, before);
        assert(polls[i].silent());
    }
    let until = polls.subrange(0, first + 1);
    assert(until.drop_last() =~= quiet);
    assert(until.last() == polls[first]);
    assert(monitor.run(until).phase is Promoting);
    assert forall|i: int| first < i < polls.len() implies #[trigger] monitor.asked_at(
        polls,
        i,
    ) is Finished by {
        lemma_promotion_is_one_way(monitor, until, polls.subrange(first + 1, i));
        assert(until + polls.subrange(first + 1, i) =~= polls.subrange(0, i));
    }
    lemma_promotion_is_one_way(monitor, until, polls.subrange(first + 1, polls.len() as int));
    assert(until + polls.subrange(first + 1, polls.len() as int) =~= polls);
    lemma_promotes_at_most_once(monitor, polls);
}

/// Turns in which nothing is heard leave the counter and the time of the
/// last heartbeat as they were.
pub proof fn lemma_silent_turns_keep_what_was_heard(monitor: BackupMonitor, polls: Seq<Poll>)
    requires
        forall|i: int| 0 <= i < polls.len() ==> (#[trigger] polls[i]).silent(),
    ensures
        monitor.run(polls).counter == monitor.counter,
        monitor.run(polls).last_heartbeat == monitor.last_heartbeat,
    decreases polls.len(),
{
    if polls.len() > 0 {
        let before = polls.drop_last();
        assert forall|i: int| 0 <= i < before.len() implies (#[trigger] before[i]).silent() by {
            assert(before[i] == polls[i]);
        }
        lemma_silent_turns_keep_what_was_heard(monitor, before);
        assert(polls.last() == polls[polls.len() - 1]);
        assert(polls.last().silent());
    }
}

/// While a monitor listens, its counter follows the heartbeats: if it
/// still listens before the last of the turns `polls`, it then holds the
/// value of the last datagram that carried one, or its former counter if
/// none did. Datagrams that carry no value change nothing.
pub proof fn lemma_counter_follows_heartbeats(monitor: BackupMonitor, polls: Seq<Poll>)
    requires
        polls.len() > 0 ==> monitor.run(polls.drop_last()).phase is Listening,
        polls.len() == 0 ==> monitor.phase is Listening,
    ensures
        monitor.run(polls).counter == heard_counter(monitor.counter, polls),
    decreases polls.len(),
{
    if polls.len() > 0 {
        let before = polls.drop_last();
        if before.len() > 0 {
            if monitor.run(before.drop_last()).phase is Promoting {
                lemma_promotion_is_one_way(monitor, before.drop_last(), seq![before.last()]);
                assert(before.drop_last() + seq![before.last()] =~= before);
            }
        }
        lemma_counter_follows_heartbeats(monitor, before);
    }
}

/// Continuity across a take-over: the primary loop that succeeds a
/// promoting monitor emits the monitor's counter first, that is the last
/// value that a heartbeat handed to the monitor, and goes on from there in
/// steps of one.
pub proof fn lemma_takeover_resumes_counter(monitor: BackupMonitor, index: nat)
    requires
        monitor.phase is Promoting,
        monitor.counter + index <= u64::MAX,
    ensures
        monitor.successor() is Some,
        monitor.successor()->0.emitted(0) == monitor.counter,
        monitor.successor()->0.emitted(index) == monitor.counter + index,
{
    let primary = monitor.successor()->0;
    lemma_ticks_advance(primary, index);
    lemma_advanced_adds(primary.next, index);
}

/// A listening backup that receives the heartbeat of a primary's tick
/// holds the value that the tick emitted.
pub proof fn lemma_heartbeat_hands_counter_over(
    primary: PrimaryLoop,
    monitor: BackupMonitor,
    payload: Vec<u8>,
    received_at: u64,
)
    requires
        monitor.phase is Listening,
        payload@ == heartbeat_payload(primary.next as nat),
    ensures
        monitor.observed(Reception::Datagram { payload, received_at }).counter == primary.emitted(0),
        monitor.observed(Reception::Datagram { payload, received_at }).last_heartbeat
            == received_at,
{
    lemma_heartbeat_round_trip(primary.next);
}

} // verus!
