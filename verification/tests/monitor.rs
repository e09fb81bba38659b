use failover::monitor::{BackupMonitor, MonitorAction, MonitorPhase, Poll, Reception};
use failover::primary::PrimaryLoop;
use failover::timing::{
    elapsed_between, FAILURE_THRESHOLD_NANOS, HEARTBEAT_INTERVAL_NANOS, TOLERATED_INTERVALS,
};

fn datagram(payload: &[u8], received_at: u64) -> Reception {
    Reception::Datagram { payload: payload.to_vec(), received_at }
}

fn listening(counter: u64, last_heartbeat: u64) -> BackupMonitor {
    BackupMonitor { counter, last_heartbeat, phase: MonitorPhase::Listening }
}

#[test]
fn intervals_are_those_of_the_protocol() {
    assert_eq!(HEARTBEAT_INTERVAL_NANOS, 500_000_000);
    assert_eq!(FAILURE_THRESHOLD_NANOS, 2_000_000_000);
    assert_eq!(TOLERATED_INTERVALS, 4);
    assert_eq!(FAILURE_THRESHOLD_NANOS, 4 * HEARTBEAT_INTERVAL_NANOS);
}

#[test]
fn elapsed_between_is_the_difference_or_nothing() {
    assert_eq!(elapsed_between(0, 0), 0);
    assert_eq!(elapsed_between(10, 25), 15);
    assert_eq!(elapsed_between(25, 10), 0);
    assert_eq!(elapsed_between(0, u64::MAX), u64::MAX);
    assert_eq!(elapsed_between(u64::MAX, 0), 0);
}

#[test]
fn monitor_starts_listening_with_the_initial_counter() {
    let monitor = BackupMonitor::new(1234);
    assert_eq!(monitor, listening(1, 1234));
}

#[test]
fn parseable_datagram_replaces_the_counter() {
    let mut monitor = listening(1, 0);
    monitor.observe(&datagram(b"17", 500));
    assert_eq!(monitor, listening(17, 500));
    monitor.observe(&datagram(b"3", 900));
    assert_eq!(monitor, listening(3, 900));
}

#[test]
fn unparseable_datagram_keeps_the_counter_and_renews_the_time() {
    let mut monitor = listening(17, 500);
    monitor.observe(&datagram(b"seventeen", 800));
    assert_eq!(monitor, listening(17, 800));
    monitor.observe(&datagram(&[0xFF, 0xFE], 900));
    assert_eq!(monitor, listening(17, 900));
    monitor.observe(&datagram(b"", 1000));
    assert_eq!(monitor, listening(17, 1000));
}

#[test]
fn wait_without_datagram_changes_nothing() {
    let mut monitor = listening(17, 500);
    monitor.observe(&Reception::TimedOut);
    assert_eq!(monitor, listening(17, 500));
    monitor.observe(&Reception::Failed);
    assert_eq!(monitor, listening(17, 500));
}

#[test]
fn heartbeat_sequence_with_one_bad_message() {
    let mut monitor = BackupMonitor::new(0);
    let payloads: [&[u8]; 4] = [b"5", b" 7 ", b"not-a-number", b"9"];
    let expected: [u64; 4] = [5, 7, 7, 9];
    for i in 0..4 {
        let at = (i as u64 + 1) * 1_000_000_000;
        monitor.observe(&datagram(payloads[i], at));
        assert_eq!(monitor.counter, expected[i]);
        assert_eq!(monitor.last_heartbeat, at);
        assert_eq!(monitor.evaluate(at + 10), MonitorAction::KeepListening);
    }
    assert_eq!(monitor, listening(9, 4_000_000_000));
}

#[test]
fn keeps_listening_up_to_the_threshold() {
    let mut monitor = listening(5, 1_000);
    assert_eq!(monitor.evaluate(1_000), MonitorAction::KeepListening);
    assert_eq!(monitor.evaluate(1_000 + 500_000_000), MonitorAction::KeepListening);
    assert_eq!(monitor.evaluate(1_000 + 1_999_999_999), MonitorAction::KeepListening);
    assert_eq!(monitor.evaluate(1_000 + 2_000_000_000), MonitorAction::KeepListening);
    assert_eq!(monitor, listening(5, 1_000));
}

#[test]
fn promotes_once_the_threshold_is_passed() {
    let mut monitor = listening(5, 1_000);
    assert_eq!(monitor.evaluate(1_000 + 2_000_000_001), MonitorAction::Promote);
    assert_eq!(
        monitor,
        BackupMonitor { counter: 5, last_heartbeat: 1_000, phase: MonitorPhase::Promoting }
    );
}

#[test]
fn clock_reading_before_the_last_heartbeat_counts_as_no_silence() {
    let mut monitor = listening(5, 10_000_000_000);
    assert_eq!(monitor.evaluate(0), MonitorAction::KeepListening);
    assert_eq!(monitor.phase, MonitorPhase::Listening);
}

#[test]
fn promotion_is_asked_for_only_once() {
    let mut monitor = listening(5, 0);
    let mut promotions = 0;
    for turn in 1..=12u64 {
        let poll = Poll { reception: Reception::TimedOut, checked_at: turn * 500_000_000 };
        let action = monitor.step(&poll);
        if turn <= 4 {
            assert_eq!(action, MonitorAction::KeepListening);
        } else if turn == 5 {
            assert_eq!(action, MonitorAction::Promote);
        } else {
            assert_eq!(action, MonitorAction::Finished);
        }
        if action == MonitorAction::Promote {
            promotions += 1;
        }
    }
    assert_eq!(promotions, 1);
    assert_eq!(monitor.phase, MonitorPhase::Promoting);
    assert_eq!(monitor.counter, 5);
}

#[test]
fn promoting_monitor_ignores_what_it_is_fed() {
    let promoting = BackupMonitor { counter: 5, last_heartbeat: 7, phase: MonitorPhase::Promoting };
    let mut monitor = promoting;
    monitor.observe(&datagram(b"99", 1_000));
    assert_eq!(monitor, promoting);
    assert_eq!(monitor.evaluate(u64::MAX), MonitorAction::Finished);
    assert_eq!(monitor, promoting);
    let poll = Poll { reception: datagram(b"100", 2_000), checked_at: 3_000 };
    assert_eq!(monitor.step(&poll), MonitorAction::Finished);
    assert_eq!(monitor, promoting);
}

#[test]
fn datagram_postpones_promotion() {
    let mut monitor = listening(1, 0);
    let late = Poll { reception: datagram(b"8", 1_900_000_000), checked_at: 2_100_000_000 };
    assert_eq!(monitor.step(&late), MonitorAction::KeepListening);
    assert_eq!(monitor, listening(8, 1_900_000_000));
    let silent = Poll { reception: Reception::TimedOut, checked_at: 3_900_000_000 };
    assert_eq!(monitor.step(&silent), MonitorAction::KeepListening);
    let silent = Poll { reception: Reception::Failed, checked_at: 3_900_000_001 };
    assert_eq!(monitor.step(&silent), MonitorAction::Promote);
}

#[test]
fn malformed_datagram_postpones_promotion_too() {
    let mut monitor = listening(4, 0);
    let poll = Poll { reception: datagram(b"??", 2_500_000_000), checked_at: 2_500_000_100 };
    assert_eq!(monitor.step(&poll), MonitorAction::KeepListening);
    assert_eq!(monitor, listening(4, 2_500_000_000));
}

#[test]
fn stale_datagram_does_not_prevent_promotion() {
    // the datagram arrived, but the clock is read long after it
    let mut monitor = listening(4, 0);
    let poll = Poll { reception: datagram(b"6", 1_000), checked_at: 2_000_001_001 };
    assert_eq!(monitor.step(&poll), MonitorAction::Promote);
    assert_eq!(monitor.counter, 6);
}

#[test]
fn only_a_promoting_monitor_has_a_successor() {
    assert_eq!(listening(5, 0).into_primary(), None);
    let promoting = BackupMonitor { counter: 5, last_heartbeat: 0, phase: MonitorPhase::Promoting };
    assert_eq!(promoting.into_primary(), Some(PrimaryLoop { next: 5 }));
}

#[test]
fn backup_takes_over_at_the_last_heartbeat() {
    let mut monitor = BackupMonitor::new(0);
    let first = Poll { reception: datagram(b"42", 100_000_000), checked_at: 100_000_500 };
    assert_eq!(monitor.step(&first), MonitorAction::KeepListening);
    let mut now = 100_000_500;
    let mut actions: Vec<MonitorAction> = Vec::new();
    loop {
        now += HEARTBEAT_INTERVAL_NANOS;
        let action = monitor.step(&Poll { reception: Reception::TimedOut, checked_at: now });
        actions.push(action);
        if action != MonitorAction::KeepListening {
            break;
        }
    }
    assert_eq!(
        actions,
        vec![
            MonitorAction::KeepListening,
            MonitorAction::KeepListening,
            MonitorAction::KeepListening,
            MonitorAction::Promote,
        ]
    );
    let mut primary = monitor.into_primary().unwrap();
    assert_eq!(primary.tick().value, 42);
    assert_eq!(primary.tick().value, 43);
    assert_eq!(primary.tick().value, 44);
}

#[test]
fn backup_that_hears_nothing_takes_over_at_the_initial_counter() {
    let mut monitor = BackupMonitor::new(5_000);
    let poll = Poll { reception: Reception::TimedOut, checked_at: 5_000 + 2_000_000_001 };
    assert_eq!(monitor.step(&poll), MonitorAction::Promote);
    let mut primary = monitor.into_primary().unwrap();
    assert_eq!(primary.tick().value, 1);
    assert_eq!(primary.tick().value, 2);
}

#[test]
fn backup_follows_a_primary_tick_by_tick() {
    let mut primary = PrimaryLoop::fresh();
    let mut monitor = BackupMonitor::new(0);
    let mut now = 0;
    for _ in 0..10 {
        let tick = primary.tick();
        now += tick.sleep_nanos;
        let poll = Poll {
            reception: Reception::Datagram { payload: tick.heartbeat, received_at: now },
            checked_at: now + 1,
        };
        assert_eq!(monitor.step(&poll), MonitorAction::KeepListening);
        assert_eq!(monitor.counter, tick.value);
    }
    assert_eq!(monitor.counter, 10);
}
