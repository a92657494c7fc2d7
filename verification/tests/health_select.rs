use gpuflo::model::{HealthCategory, Timestamp};
use gpuflo::state::health::{rank, select, HealthCandidate};
use gpuflo::state::history::{Ring, HISTORY_CAPACITY};

/// 2026-08-21 10:00 UTC plus `second` seconds.
fn at(second: u8) -> Timestamp {
    Timestamp::from_unix_nanos((1_787_306_400i128 + i128::from(second)) * 1_000_000_000)
}

fn candidate(category: HealthCategory, message: &str, t: Timestamp) -> HealthCandidate {
    HealthCandidate {
        category,
        message: message.to_owned(),
        observed_at: t,
    }
}

#[test]
fn priority_is_fault_throttle_limit_telemetry_pressure_none() {
    let candidates = vec![
        candidate(HealthCategory::MEMORY_PRESSURE, "pressure", at(5)),
        candidate(HealthCategory::TELEMETRY, "stale", at(5)),
        candidate(HealthCategory::LIMIT, "power limit active", at(5)),
        candidate(HealthCategory::THROTTLE, "thermal throttle", at(5)),
        candidate(HealthCategory::FAULT, "2 uncorrectable ECC errors", at(1)),
    ];
    let health = select(&candidates, at(9));
    assert_eq!(health.category, HealthCategory::FAULT);
    assert_eq!(health.message, "2 uncorrectable ECC errors");
    assert_eq!(health.observed_at, at(1));
}

#[test]
fn newest_wins_within_a_category() {
    let candidates = vec![
        candidate(HealthCategory::THROTTLE, "older", at(1)),
        candidate(HealthCategory::THROTTLE, "newer", at(3)),
    ];
    assert_eq!(select(&candidates, at(9)).message, "newer");
}

#[test]
fn no_candidates_is_factual_normal_text() {
    let health = select(&vec![], at(9));
    assert_eq!(health.category, HealthCategory::NONE);
    assert_eq!(health.message, "no active limits or faults");
    assert_eq!(health.observed_at, at(9));
}

#[test]
fn unknown_category_outranks_none_but_not_known_conditions() {
    let candidates = vec![
        candidate(HealthCategory::new("future_condition"), "future", at(5)),
        candidate(HealthCategory::MEMORY_PRESSURE, "pressure", at(5)),
    ];
    assert_eq!(
        select(&candidates, at(9)).category,
        HealthCategory::MEMORY_PRESSURE
    );
    let only_unknown = vec![candidate(
        HealthCategory::new("future_condition"),
        "f",
        at(5),
    )];
    assert_eq!(
        select(&only_unknown, at(9)).category.as_str(),
        "future_condition"
    );
}

#[test]
fn equal_time_ties_keep_the_first_listed() {
    let candidates = vec![
        candidate(HealthCategory::LIMIT, "first", at(4)),
        candidate(HealthCategory::LIMIT, "second", at(4)),
    ];
    assert_eq!(select(&candidates, at(9)).message, "first");
}

#[test]
fn ranks_are_strictly_ordered() {
    let order = [
        HealthCategory::FAULT,
        HealthCategory::THROTTLE,
        HealthCategory::LIMIT,
        HealthCategory::TELEMETRY,
        HealthCategory::MEMORY_PRESSURE,
        HealthCategory::new("future_condition"),
        HealthCategory::NONE,
    ];
    for pair in order.windows(2) {
        assert!(rank(&pair[0]) < rank(&pair[1]));
    }
}

#[test]
fn ring_is_bounded_and_ordered() {
    let mut ring = Ring::new();
    assert_eq!(ring.to_vec(), Vec::<Option<f64>>::new());
    for i in 0..250u32 {
        ring.push(if i % 3 == 0 { None } else { Some(f64::from(i)) });
    }
    let window = ring.to_vec();
    assert_eq!(ring.len(), HISTORY_CAPACITY);
    assert_eq!(window.len(), HISTORY_CAPACITY);
    // Oldest surviving slot is tick 10, newest is tick 249.
    assert_eq!(window[0], Some(10.0));
    assert_eq!(window[HISTORY_CAPACITY - 1], None); // 249 % 3 == 0
    assert_eq!(window[HISTORY_CAPACITY - 2], Some(248.0));
}

#[test]
fn ring_below_capacity_keeps_everything_in_order() {
    let mut ring: Ring<u64> = Ring::new();
    for i in 0..5u64 {
        ring.push(Some(i));
    }
    ring.push(None);
    assert_eq!(ring.len(), 6);
    assert_eq!(ring.to_vec(), vec![Some(0), Some(1), Some(2), Some(3), Some(4), None]);
}
