use gpuflo::model::{HealthCategory, ObservationState, Timestamp};
use gpuflo::normalize::{add_telemetry_candidate, health_candidate, map_state, outcome, telemetry_message};
use gpuflo::source::kernel::KernelHealthSignal;
use gpuflo::source::Reading;

#[test]
fn each_failure_maps_to_exactly_one_state() {
    // Structural absence on a primary partition is hardware absence; on a
    // secondary XCP it is owned by the primary.
    assert_eq!(map_state(&Reading::<u64>::Sentinel, false), ObservationState::UNSUPPORTED_HARDWARE);
    assert_eq!(map_state(&Reading::<u64>::Absent, true), ObservationState::REPORTED_BY_PRIMARY_PARTITION);
    // Runtime evidence is never rewritten by partition scope.
    assert_eq!(map_state(&Reading::<u64>::Asleep, true), ObservationState::ASLEEP);
    assert_eq!(map_state(&Reading::<u64>::PermissionDenied, true), ObservationState::PERMISSION_DENIED);
    assert_eq!(map_state(&Reading::<u64>::UnsupportedDriver, false), ObservationState::UNSUPPORTED_DRIVER_VERSION);
    assert_eq!(map_state(&Reading::<u64>::Malformed, false), ObservationState::SOURCE_ERROR);
    assert_eq!(map_state(&Reading::<u64>::Error, true), ObservationState::SOURCE_ERROR);
}

#[test]
fn values_pass_through_as_outcomes() {
    assert_eq!(outcome(Reading::Value(7u64), true), Ok(7));
    assert_eq!(outcome(Reading::<u64>::Asleep, false), Err(ObservationState::ASLEEP));
}

#[test]
fn kernel_signals_become_fault_and_throttle_candidates() {
    let t = Timestamp::from_unix_nanos(5);
    let ecc = health_candidate(&KernelHealthSignal::EccErrors { uncorrectable: 2 }, t);
    assert_eq!(ecc.category, HealthCategory::FAULT);
    assert_eq!(ecc.message, "2 uncorrectable ECC errors");
    assert_eq!(ecc.observed_at, t);
    let one = health_candidate(&KernelHealthSignal::EccErrors { uncorrectable: 1 }, t);
    assert_eq!(one.message, "1 uncorrectable ECC error");
    let throttle = health_candidate(&KernelHealthSignal::ThrottleActive { reasons: "power, thermal".to_owned() }, t);
    assert_eq!(throttle.category, HealthCategory::THROTTLE);
    assert_eq!(throttle.message, "power, thermal throttle active");
    let pages = health_candidate(&KernelHealthSignal::BadPages { pending: 1, unreservable: 1 }, t);
    assert_eq!(pages.message, "1 pending, 1 unreservable bad memory pages");
}

#[test]
fn telemetry_trouble_has_one_sentence_per_state() {
    let now = Timestamp::from_unix_nanos(20_000_000_000);
    let last = Some(Timestamp::from_unix_nanos(17_500_000_000));
    assert_eq!(telemetry_message(&ObservationState::ASLEEP, None, now), "GPU asleep");
    assert_eq!(telemetry_message(&ObservationState::PERMISSION_DENIED, None, now), "telemetry permission denied");
    assert_eq!(telemetry_message(&ObservationState::STALE, last, now), "telemetry stale · last sample 2.5s ago");
    assert_eq!(telemetry_message(&ObservationState::new("weird"), None, now), "telemetry source error");
    let mut candidates = Vec::new();
    add_telemetry_candidate(&mut candidates, "GPU asleep".to_owned(), now);
    add_telemetry_candidate(&mut candidates, "GPU asleep".to_owned(), now);
    assert_eq!(candidates.len(), 1);
    assert_eq!(candidates[0].category, HealthCategory::TELEMETRY);
}

#[test]
fn reached_limits_become_limit_candidates() {
    let t = Timestamp::from_unix_nanos(9);
    let u = Timestamp::from_unix_nanos(3);
    let reached = gpuflo::normalize::limit_candidates(Some((95_500, t)), Some((95_000, u)), Some((318_000_000, u)), Some((300_000_000, t)));
    assert_eq!(reached.len(), 2);
    assert_eq!(reached[0].category, HealthCategory::LIMIT);
    assert_eq!(reached[0].message, "thermal limit reached · hotspot 96 / 95°C");
    assert_eq!(reached[0].observed_at, t);
    assert_eq!(reached[1].message, "power limit active · 318 / 300 W");
    assert_eq!(reached[1].observed_at, u);
    assert!(gpuflo::normalize::limit_candidates(Some((94_999, t)), Some((95_000, t)), None, None).is_empty());
    assert!(gpuflo::normalize::limit_candidates(Some((10, t)), Some((0, t)), Some((5, t)), Some((0, t))).is_empty());
    let half = gpuflo::normalize::limit_candidates(Some((96_500, t)), Some((96_500, t)), None, None);
    assert_eq!(half[0].message, "thermal limit reached · hotspot 96 / 96°C");
}
