use gpuflo::model::{HealthCategory, Observation, ObservationState, Timestamp};
use gpuflo::source::Reading;
use gpuflo::source::kernel::KernelHealthSignal;
use gpuflo::state::health::HealthCandidate;
use gpuflo::state::reducer::{FastSample, GpuCells, PartitionFast, SlowSample};

const BASE_WALL: i128 = 1_787_306_400_000_000_000;
const BASE_MONO: u64 = 5_000_000_000;

fn wall(ms: u64) -> Timestamp {
    Timestamp { unix_nanos: BASE_WALL + (ms as i128) * 1_000_000 }
}

fn mono(ms: u64) -> u64 {
    BASE_MONO + ms * 1_000_000
}

fn part(activity: Reading<u64>) -> PartitionFast {
    PartitionFast {
        activity_centipercent: activity,
        mem_ctl_centipercent: Reading::Absent,
        mem_used_bytes: Reading::Absent,
        mem_total_bytes: Reading::Absent,
    }
}

fn fast(activity: Reading<u64>) -> FastSample {
    FastSample {
        hotspot_millic: Reading::Absent,
        socket_power_microwatts: Reading::Absent,
        partitions: vec![part(activity)],
    }
}

fn one_gpu() -> GpuCells {
    GpuCells::new(&vec![true])
}

fn activity(g: &GpuCells) -> Observation<u64> {
    g.partitions[0].activity.observation()
}

#[test]
fn failed_read_before_deadline_retains_value_without_history_append() {
    let mut g = one_gpu();
    g.apply_fast(&fast(Reading::Value(8_000)), wall(0), mono(0));
    g.end_tick();
    g.apply_fast(&fast(Reading::Error), wall(250), mono(250));
    g.end_tick();
    g.evaluate(mono(500));
    assert_eq!(activity(&g), Observation::Value { value: 8_000, observed_at: wall(0) });
    assert_eq!(g.partitions[0].session.activity_window(), vec![Some(8_000), None]);
    assert_eq!(g.partitions[0].session.peak_activity(), Some(8_000));
}

#[test]
fn deadline_elapsed_without_evidence_becomes_stale_with_last_time() {
    let mut g = one_gpu();
    g.apply_fast(&fast(Reading::Value(8_000)), wall(0), mono(0));
    g.end_tick();
    g.evaluate(mono(1500));
    assert_eq!(
        activity(&g),
        Observation::Unavailable { state: ObservationState::Stale, observed_at: Some(wall(0)) }
    );
    let h = g.health(wall(1500));
    assert_eq!(h.category, HealthCategory::Telemetry);
    assert_eq!(h.message, "telemetry stale · last sample 1.5s ago");
}

#[test]
fn deadline_elapsed_with_asleep_evidence_shows_asleep() {
    let mut g = one_gpu();
    g.apply_fast(&fast(Reading::Value(8_000)), wall(0), mono(0));
    g.apply_fast(&fast(Reading::Asleep), wall(250), mono(250));
    g.evaluate(mono(1500));
    assert_eq!(
        activity(&g),
        Observation::Unavailable { state: ObservationState::Asleep, observed_at: None }
    );
    assert_eq!(g.health(wall(1500)).message, "GPU asleep");
}

#[test]
fn stale_then_fresh_appends_exactly_once_and_updates_peak() {
    let mut g = one_gpu();
    g.apply_fast(&fast(Reading::Value(5_000)), wall(0), mono(0));
    g.end_tick();
    g.evaluate(mono(1500));
    g.end_tick();
    g.apply_fast(&fast(Reading::Value(9_000)), wall(1750), mono(1750));
    g.end_tick();
    g.evaluate(mono(1750));
    assert_eq!(activity(&g), Observation::Value { value: 9_000, observed_at: wall(1750) });
    assert_eq!(
        g.partitions[0].session.activity_window(),
        vec![Some(5_000), None, Some(9_000)]
    );
    assert_eq!(g.partitions[0].session.peak_activity(), Some(9_000));
}

#[test]
fn fresh_kernel_value_defeats_newer_amdsmi_value() {
    let mut g = one_gpu();
    g.apply_fast(&fast(Reading::Value(7_000)), wall(0), mono(0));
    g.apply_amdsmi(0, &part(Reading::Value(1_000)), wall(100), mono(100));
    g.evaluate(mono(200));
    assert_eq!(activity(&g), Observation::Value { value: 7_000, observed_at: wall(0) });
    let mut g = one_gpu();
    g.apply_amdsmi(0, &part(Reading::Value(1_000)), wall(0), mono(0));
    g.evaluate(mono(200));
    assert_eq!(activity(&g), Observation::Value { value: 1_000, observed_at: wall(0) });
}

#[test]
fn socket_metrics_live_only_on_the_physical_gpu() {
    let mut g = one_gpu();
    g.apply_fast(
        &FastSample {
            hotspot_millic: Reading::Absent,
            socket_power_microwatts: Reading::Value(318_000_000),
            partitions: vec![],
        },
        wall(0),
        mono(0),
    );
    g.evaluate(mono(100));
    assert_eq!(
        g.power.observation(),
        Observation::Value { value: 318_000_000, observed_at: wall(0) }
    );
    assert_eq!(
        activity(&g),
        Observation::Unavailable { state: ObservationState::SourceError, observed_at: None }
    );
}

#[test]
fn secondary_partition_state_passes_through_unaltered() {
    let mut g = GpuCells::new(&vec![true, false]);
    g.apply_fast(
        &FastSample {
            hotspot_millic: Reading::Absent,
            socket_power_microwatts: Reading::Absent,
            partitions: vec![part(Reading::Value(100)), part(Reading::Absent)],
        },
        wall(0),
        mono(0),
    );
    g.evaluate(mono(100));
    assert_eq!(
        g.partitions[1].activity.observation(),
        Observation::Unavailable {
            state: ObservationState::ReportedByPrimaryPartition,
            observed_at: None,
        }
    );
    assert_ne!(g.health(wall(100)).message, "telemetry source error");
}

#[test]
fn health_priority_orders_fault_over_throttle_over_limit_over_telemetry() {
    let mut g = one_gpu();
    g.apply_fast(
        &FastSample {
            hotspot_millic: Reading::Absent,
            socket_power_microwatts: Reading::Value(320_000_000),
            partitions: vec![part(Reading::Value(100))],
        },
        wall(0),
        mono(0),
    );
    g.apply_slow(
        &SlowSample {
            limit_millic: Reading::Absent,
            cap_microwatts: Reading::Value(320_000_000),
            gfx_clock_hz: Reading::Absent,
            health: vec![],
        },
        wall(0),
        mono(0),
    );
    g.evaluate(mono(100));
    let h = g.health(wall(100));
    assert_eq!(h.category, HealthCategory::Limit);
    assert_eq!(h.message, "power limit active · 320 / 320 W");

    g.kernel_health = vec![HealthCandidate {
        category: HealthCategory::Throttle,
        message: "thermal throttle · hotspot 94 / 95°C".to_owned(),
        observed_at: wall(0),
    }];
    assert_eq!(g.health(wall(200)).category, HealthCategory::Throttle);

    g.kernel_health = vec![
        HealthCandidate {
            category: HealthCategory::Throttle,
            message: "thermal throttle".to_owned(),
            observed_at: wall(0),
        },
        HealthCandidate {
            category: HealthCategory::Fault,
            message: "2 uncorrectable ECC errors".to_owned(),
            observed_at: wall(0),
        },
    ];
    let h = g.health(wall(300));
    assert_eq!(h.category, HealthCategory::Fault);
    assert_eq!(h.message, "2 uncorrectable ECC errors");
}

#[test]
fn one_metric_failure_preserves_independent_values() {
    let mut g = one_gpu();
    g.apply_fast(
        &FastSample {
            hotspot_millic: Reading::Absent,
            socket_power_microwatts: Reading::Absent,
            partitions: vec![PartitionFast {
                activity_centipercent: Reading::PermissionDenied,
                mem_ctl_centipercent: Reading::Absent,
                mem_used_bytes: Reading::Value(96 * 1024 * 1024 * 1024),
                mem_total_bytes: Reading::Value(192 * 1024 * 1024 * 1024),
            }],
        },
        wall(0),
        mono(0),
    );
    g.evaluate(mono(100));
    assert_eq!(
        activity(&g),
        Observation::Unavailable { state: ObservationState::PermissionDenied, observed_at: None }
    );
    assert_eq!(
        g.partitions[0].mem_used.observation(),
        Observation::Value { value: 96 * 1024 * 1024 * 1024, observed_at: wall(0) }
    );
    assert_eq!(
        g.partitions[0].mem_total.observation(),
        Observation::Value { value: 192 * 1024 * 1024 * 1024, observed_at: wall(0) }
    );
    g.end_tick();
    assert_eq!(
        g.partitions[0].session.memory_window(),
        vec![Some((96 * 1024 * 1024 * 1024, 192 * 1024 * 1024 * 1024))]
    );
}

#[test]
fn session_peaks_reset_without_touching_windows() {
    let mut g = one_gpu();
    g.apply_fast(&fast(Reading::Value(9_500)), wall(0), mono(0));
    g.end_tick();
    assert_eq!(g.partitions[0].session.peak_activity(), Some(9_500));
    g.reset_peaks();
    assert_eq!(g.partitions[0].session.peak_activity(), None);
    assert_eq!(g.partitions[0].session.activity_window(), vec![Some(9_500)]);
}

#[test]
fn slow_sample_sets_kernel_health_and_secondary_clock_state() {
    let mut g = GpuCells::new(&vec![true, false]);
    g.apply_slow(
        &SlowSample {
            limit_millic: Reading::Value(95_000),
            cap_microwatts: Reading::Absent,
            gfx_clock_hz: Reading::Value(2_100_000_000),
            health: vec![KernelHealthSignal::EccErrors { uncorrectable: 2 }],
        },
        wall(0),
        mono(0),
    );
    assert_eq!(g.kernel_health.len(), 1);
    assert_eq!(g.kernel_health[0].category, HealthCategory::Fault);
    assert_eq!(
        g.partitions[0].gfx_clock.observation(),
        Observation::Value { value: 2_100_000_000, observed_at: wall(0) }
    );
    assert_eq!(
        g.partitions[1].gfx_clock.observation(),
        Observation::Unavailable {
            state: ObservationState::ReportedByPrimaryPartition,
            observed_at: None,
        }
    );
    assert_eq!(g.health(wall(10)).category, HealthCategory::Fault);
}

#[test]
fn thermal_limit_outranks_telemetry_trouble() {
    let mut g = one_gpu();
    g.apply_fast(
        &FastSample {
            hotspot_millic: Reading::Value(95_400),
            socket_power_microwatts: Reading::PermissionDenied,
            partitions: vec![part(Reading::Value(100))],
        },
        wall(0),
        mono(0),
    );
    g.apply_slow(
        &SlowSample {
            limit_millic: Reading::Value(95_000),
            cap_microwatts: Reading::Absent,
            gfx_clock_hz: Reading::Absent,
            health: vec![],
        },
        wall(0),
        mono(0),
    );
    let candidates = g.health_candidates(wall(50));
    assert_eq!(candidates.len(), 2);
    assert_eq!(candidates[1].message, "telemetry permission denied");
    let h = g.health(wall(50));
    assert_eq!(h.message, "thermal limit reached · hotspot 95 / 95°C");
}

#[test]
fn assembly_publishes_each_cell_window_and_health() {
    let mut g = GpuCells::new(&vec![true, false]);
    g.apply_fast(
        &FastSample {
            hotspot_millic: Reading::Value(61_000),
            socket_power_microwatts: Reading::Value(250_000_000),
            partitions: vec![part(Reading::Value(4_200)), part(Reading::Absent)],
        },
        wall(0),
        mono(0),
    );
    g.end_tick();
    let o = g.assemble(wall(100));
    assert_eq!(o.hotspot_millic, Observation::Value { value: 61_000, observed_at: wall(0) });
    assert_eq!(o.socket_microwatts, Observation::Value { value: 250_000_000, observed_at: wall(0) });
    assert_eq!(
        o.power_cap_microwatts,
        Observation::Unavailable { state: ObservationState::SourceError, observed_at: None }
    );
    assert_eq!(o.partitions.len(), 2);
    assert_eq!(o.partitions[0].activity_window, vec![Some(4_200)]);
    assert_eq!(o.partitions[0].peak_activity, Some(4_200));
    assert_eq!(o.partitions[1].activity_window, vec![None]);
    assert_eq!(o.health.category, HealthCategory::Normal);
    assert_eq!(o.health.message, "no active limits or faults");
}

#[test]
fn enrichment_fills_memory_but_a_missing_value_changes_nothing() {
    let mut g = one_gpu();
    g.apply_fast(
        &FastSample {
            hotspot_millic: Reading::Absent,
            socket_power_microwatts: Reading::Absent,
            partitions: vec![PartitionFast {
                activity_centipercent: Reading::Value(3_000),
                mem_ctl_centipercent: Reading::Absent,
                mem_used_bytes: Reading::PermissionDenied,
                mem_total_bytes: Reading::PermissionDenied,
            }],
        },
        wall(0),
        mono(0),
    );
    g.apply_amdsmi(
        0,
        &PartitionFast {
            activity_centipercent: Reading::Error,
            mem_ctl_centipercent: Reading::Value(1_200),
            mem_used_bytes: Reading::Value(4 << 30),
            mem_total_bytes: Reading::Value(16 << 30),
        },
        wall(10),
        mono(10),
    );
    g.apply_amdsmi(7, &part(Reading::Value(1)), wall(10), mono(10));
    assert_eq!(activity(&g), Observation::Value { value: 3_000, observed_at: wall(0) });
    assert_eq!(
        g.partitions[0].mem_used.observation(),
        Observation::Value { value: 4 << 30, observed_at: wall(10) }
    );
    assert_eq!(
        g.partitions[0].mem_ctl.observation(),
        Observation::Value { value: 1_200, observed_at: wall(10) }
    );
    g.end_tick();
    assert_eq!(g.partitions[0].session.memory_window(), vec![Some((4 << 30, 16 << 30))]);
}

#[test]
fn slow_sample_normalizes_limits_clock_and_health() {
    let mut g = one_gpu();
    g.apply_slow(
        &SlowSample {
            limit_millic: Reading::Value(95_000),
            cap_microwatts: Reading::UnsupportedDriver,
            gfx_clock_hz: Reading::Value(1_700_000_000),
            health: vec![
                KernelHealthSignal::ThrottleActive { reasons: "thermal".to_owned() },
                KernelHealthSignal::EccErrors { uncorrectable: 2 },
                KernelHealthSignal::BadPages { pending: 1, unreservable: 0 },
            ],
        },
        wall(0),
        mono(0),
    );
    assert_eq!(g.limit.observation(), Observation::Value { value: 95_000, observed_at: wall(0) });
    assert_eq!(
        g.cap.observation(),
        Observation::Unavailable { state: ObservationState::UnsupportedDriverVersion, observed_at: None }
    );
    assert_eq!(
        g.partitions[0].gfx_clock.observation(),
        Observation::Value { value: 1_700_000_000, observed_at: wall(0) }
    );
    let messages: Vec<&str> = g.kernel_health.iter().map(|c| c.message.as_str()).collect();
    assert_eq!(
        messages,
        vec!["thermal throttle active", "2 uncorrectable ECC errors", "1 pending bad memory pages"]
    );
    assert_eq!(g.kernel_health[0].category, HealthCategory::Throttle);
    assert_eq!(g.kernel_health[1].category, HealthCategory::Fault);
}

#[test]
fn publishing_applies_the_deadline_so_no_stale_value_is_published() {
    let mut g = one_gpu();
    g.apply_fast(
        &FastSample {
            hotspot_millic: Reading::Value(70_000),
            socket_power_microwatts: Reading::Absent,
            partitions: vec![part(Reading::Value(8_000))],
        },
        wall(0),
        mono(0),
    );
    let o = g.publish(mono(900), wall(900));
    assert_eq!(o.hotspot_millic, Observation::Value { value: 70_000, observed_at: wall(0) });
    let o = g.publish(mono(1_500), wall(1_500));
    assert_eq!(
        o.hotspot_millic,
        Observation::Unavailable { state: ObservationState::Stale, observed_at: Some(wall(0)) }
    );
    assert_eq!(
        o.partitions[0].activity_centipercent,
        Observation::Unavailable { state: ObservationState::Stale, observed_at: Some(wall(0)) }
    );
}

#[test]
fn the_day_sees_the_primary_partitions_closing_tick() {
    let mut g = GpuCells::new(&vec![false, true]);
    let mut daily = gpuflo::state::daily::DailyAccumulator::new("2026-08-21".to_owned());
    g.apply_fast(
        &FastSample {
            hotspot_millic: Reading::Absent,
            socket_power_microwatts: Reading::Absent,
            partitions: vec![part(Reading::Value(1_000)), part(Reading::Value(6_500))],
        },
        wall(0),
        mono(0),
    );
    assert_eq!(g.primary_index(), Some(1));
    g.observe_day(&mut daily, "gpu-a");
    g.end_tick();
    let record = daily.record();
    assert_eq!(record.gpus.len(), 1);
    assert_eq!(record.gpus[0].1.activity_centipercent, Some(6_500));
    assert!(daily.take_dirty());
    assert_eq!(GpuCells::new(&vec![false, false]).primary_index(), Some(0));
    assert_eq!(GpuCells::new(&vec![]).primary_index(), None);
}
