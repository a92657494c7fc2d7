use gpuflo::model::{Observation, ObservationState, Timestamp};
use gpuflo::state::cell::{Cell, CellState};
use gpuflo::state::{Lane, Origin};

const SECOND: u64 = 1_000_000_000;

fn wall(seconds: i128) -> Timestamp {
    Timestamp::from_unix_nanos(seconds * 1_000_000_000)
}

#[test]
fn failed_read_before_deadline_retains_value() {
    let mut cell: Cell<u64> = Cell::new();
    assert_eq!(cell.apply(Ok(50), Origin::Kernel, Lane::Fast, wall(10), 10 * SECOND), Some(50));
    assert_eq!(cell.apply(Err(ObservationState::ASLEEP), Origin::Kernel, Lane::Fast, wall(10), 10 * SECOND + 250_000_000), None);
    cell.evaluate(10 * SECOND + 500_000_000);
    assert_eq!(cell.fresh(), Some((50, wall(10))));
    assert_eq!(cell.observation(), Observation::Value { value: 50, observed_at: wall(10) });
}

#[test]
fn cell_turns_stale_after_its_deadline() {
    let mut cell: Cell<u64> = Cell::new();
    cell.apply(Ok(50), Origin::Kernel, Lane::Fast, wall(10), 10 * SECOND);
    cell.evaluate(11 * SECOND);
    assert!(cell.fresh().is_some());
    cell.evaluate(11 * SECOND + 1);
    assert_eq!(cell.fresh(), None);
    assert_eq!(cell.observation(), Observation::Unavailable { state: ObservationState::STALE, observed_at: Some(wall(10)) });
    assert_eq!(cell.trouble(), Some((ObservationState::STALE, Some(wall(10)))));
}

#[test]
fn cell_shows_remembered_asleep_after_its_deadline() {
    let mut cell: Cell<u64> = Cell::new();
    cell.apply(Ok(50), Origin::Kernel, Lane::Slow, wall(10), 10 * SECOND);
    cell.apply(Err(ObservationState::ASLEEP), Origin::Kernel, Lane::Slow, wall(11), 11 * SECOND);
    cell.evaluate(13 * SECOND);
    assert!(cell.fresh().is_some());
    cell.evaluate(14 * SECOND);
    assert_eq!(cell.observation(), Observation::Unavailable { state: ObservationState::ASLEEP, observed_at: None });
}

#[test]
fn cell_keeps_fresh_kernel_value_over_enrichment() {
    let mut cell: Cell<u64> = Cell::new();
    cell.apply(Ok(70), Origin::Kernel, Lane::Fast, wall(10), 10 * SECOND);
    assert_eq!(cell.apply(Ok(99), Origin::AmdSmi, Lane::Fast, wall(10), 10 * SECOND + 500_000_000), None);
    assert_eq!(cell.fresh(), Some((70, wall(10))));
    // Once the kernel value is past its threshold, enrichment may fill in.
    assert_eq!(cell.apply(Ok(99), Origin::AmdSmi, Lane::Fast, wall(12), 12 * SECOND), Some(99));
}

#[test]
fn first_failure_without_value_is_the_state() {
    let mut cell: Cell<u64> = Cell::new();
    assert_eq!(cell.observation(), Observation::Unavailable { state: ObservationState::SOURCE_ERROR, observed_at: None });
    cell.apply(Err(ObservationState::PERMISSION_DENIED), Origin::Kernel, Lane::Fast, wall(1), SECOND);
    assert!(matches!(cell.state, CellState::Unavailable { .. }));
    assert_eq!(cell.trouble(), Some((ObservationState::PERMISSION_DENIED, None)));
}

#[test]
fn lanes_have_their_staleness_thresholds() {
    assert_eq!(Lane::Fast.stale_after(), 1000);
    assert_eq!(Lane::Slow.stale_after(), 3000);
}
