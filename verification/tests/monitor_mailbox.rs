use gpuflo::model::{PhysicalGpuId, Timestamp};
use gpuflo::monitor::{
    advance, connected_notice, disconnected_notice, publishes, Delivery, MonitorCommand,
    MonitorError, MonitorEvent, Notice, Outward, ProcessScope, Schedule, FAST_CADENCE_MS,
    REDISCOVERY_CADENCE_MS,
};

fn notice(message: &str) -> Notice {
    Notice::new(message.to_owned(), Timestamp::from_unix_nanos(7))
}

fn snapshot_of(delivery: Delivery<u32>) -> Option<u32> {
    match delivery {
        Delivery::Event(MonitorEvent::Snapshot(s)) => Some(s),
        _ => None,
    }
}

#[test]
fn latest_snapshot_wins_and_notices_come_first() {
    let mut out: Outward<u32> = Outward::new();
    assert!(!out.pending());
    out.publish_snapshot(1);
    out.publish_snapshot(2);
    out.publish_notice(notice("GPU connected: gpu-a"));
    assert!(out.pending());
    match out.take() {
        Delivery::Event(MonitorEvent::Notice(n)) => assert_eq!(n.message, "GPU connected: gpu-a"),
        other => panic!("expected a notice, got {other:?}"),
    }
    assert_eq!(snapshot_of(out.take()), Some(2));
    assert!(matches!(out.take(), Delivery::Empty));
}

#[test]
fn fatal_preempts_everything_and_closes_the_stream() {
    let mut out: Outward<u32> = Outward::new();
    out.publish_snapshot(1);
    out.publish_notice(notice("n"));
    out.publish_fatal(MonitorError::PartitionConfigurationChanged);
    match out.take() {
        Delivery::Event(MonitorEvent::Fatal(e)) => assert_eq!(e, MonitorError::PartitionConfigurationChanged),
        other => panic!("expected the fatal error, got {other:?}"),
    }
    assert!(matches!(out.take(), Delivery::Closed));
    out.publish_snapshot(3);
    assert!(matches!(out.take(), Delivery::Closed));
}

#[test]
fn close_delivers_pending_snapshot_then_closed() {
    let mut out: Outward<u32> = Outward::new();
    out.publish_snapshot(5);
    out.close();
    assert_eq!(snapshot_of(out.take()), Some(5));
    assert!(matches!(out.take(), Delivery::Closed));
}

#[test]
fn error_messages_are_fixed_sentences() {
    assert_eq!(
        MonitorError::PartitionConfigurationChanged.message(),
        "GPU partition configuration changed; restart gpuflo"
    );
    assert_eq!(MonitorError::Internal("boom".to_owned()).message(), "monitor failure: boom");
    let id = PhysicalGpuId::new("gpu-a");
    assert_eq!(connected_notice(&id), "GPU connected: gpu-a");
    assert_eq!(disconnected_notice(&id), "GPU disconnected: gpu-a");
}

#[test]
fn missed_ticks_are_skipped_not_replayed() {
    assert_eq!(advance(1000, 250, 999), 1000);
    assert_eq!(advance(1000, 250, 1000), 1250);
    assert_eq!(advance(1000, 250, 1900), 2000);
    assert_eq!(advance(0, 250, 10_000), 10_250);
}

#[test]
fn schedule_starts_fast_and_spaces_the_lanes() {
    let mut schedule = Schedule::start(100);
    assert_eq!(schedule.next_fast, 100);
    assert_eq!(schedule.next_production, 100 + FAST_CADENCE_MS);
    assert_eq!(schedule.next_rediscovery, 100 + REDISCOVERY_CADENCE_MS);
    let due = schedule.due(100, false);
    assert!(due.fast && !due.slow && !due.process && !due.production && !due.rediscovery);
    assert_eq!(schedule.next_fast, 350);
    let due = schedule.due(200, true);
    assert!(!due.fast && due.slow && due.process);
    assert!(schedule.wait_ms(200) <= FAST_CADENCE_MS);
}

#[test]
fn snapshots_publish_after_two_fast_samples() {
    assert!(!publishes(0));
    assert!(!publishes(1));
    assert!(publishes(2));
}

#[test]
fn closing_the_process_scope_drops_the_overlay() {
    let mut scope = ProcessScope { scope: None, has_overlay: false };
    assert!(!scope.handle(MonitorCommand::SetProcessScope(Some(PhysicalGpuId::new("gpu-a")))));
    scope.has_overlay = true;
    assert!(scope.handle(MonitorCommand::ResetSessionPeaks));
    assert!(scope.has_overlay);
    assert!(!scope.handle(MonitorCommand::SetProcessScope(None)));
    assert!(!scope.has_overlay);
    assert_eq!(scope.scope, None);
}

#[test]
fn nothing_but_closed_follows_a_delivered_fatal() {
    let mut out: Outward<u32> = Outward::new();
    out.publish_fatal(MonitorError::PartitionConfigurationChanged);
    assert!(matches!(out.take(), Delivery::Event(MonitorEvent::Fatal(_))));
    out.publish_notice(notice("late"));
    out.publish_snapshot(7);
    out.publish_fatal(MonitorError::PartitionConfigurationChanged);
    out.close();
    for _ in 0..3 {
        assert!(matches!(out.take(), Delivery::Closed));
    }
}
