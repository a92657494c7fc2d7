use gpuflo::model::Timestamp;
use gpuflo::source::Reading;
use gpuflo::state::daily::{DailyAccumulator, DailySummaryRecord, DayPeaks};
use gpuflo::state::reducer::{FastSample, GpuCells, PartitionFast};

fn peaks_of(record: &DailySummaryRecord, id: &str) -> Option<DayPeaks> {
    record.gpus.iter().find(|(k, _)| k == id).map(|(_, p)| *p)
}

#[test]
fn daily_accumulator_tracks_peaks_and_energy_deltas() {
    let mut daily = DailyAccumulator::new("2026-08-21".to_owned());
    daily.observe_activity("gpu-a", 4_000);
    daily.observe_activity("gpu-a", 9_000);
    daily.observe_activity("gpu-a", 6_000);
    daily.observe_memory("gpu-a", 555, 1_000);
    daily.observe_energy("gpu-a", 1_000); // baseline only
    daily.observe_energy("gpu-a", 1_100); // +100 counts
    daily.observe_energy("gpu-a", 900); // reset: re-anchor
    daily.observe_energy("gpu-a", 1_000); // +100 counts
    let record = daily.record();
    assert_eq!(record.date, "2026-08-21");
    let gpu = peaks_of(&record, "gpu-a").unwrap();
    assert_eq!(gpu.activity_centipercent, Some(9_000));
    assert_eq!(gpu.memory, Some((555, 1_000)));
    assert_eq!(gpu.energy_counts, Some(200));
}

#[test]
fn rollover_resets_and_seed_ignores_other_days() {
    let mut daily = DailyAccumulator::new("2026-08-21".to_owned());
    daily.observe_activity("gpu-a", 9_000);
    assert!(!daily.roll("2026-08-21".to_owned()));
    assert!(daily.roll("2026-08-22".to_owned()));
    assert!(daily.record().gpus.is_empty());

    let mut seeded = DailyAccumulator::new("2026-08-22".to_owned());
    let peaks = DayPeaks { activity_centipercent: Some(9_900), memory: None, energy_counts: None };
    let old = DailySummaryRecord { date: "2026-08-21".to_owned(), gpus: vec![("gpu-a".to_owned(), peaks)] };
    seeded.seed(&old);
    assert!(seeded.record().gpus.is_empty());
    let same_day = DailySummaryRecord { date: "2026-08-22".to_owned(), gpus: vec![("gpu-a".to_owned(), peaks)] };
    seeded.seed(&same_day);
    assert_eq!(peaks_of(&seeded.record(), "gpu-a").unwrap().activity_centipercent, Some(9_900));
}

#[test]
fn daily_summary_accumulates_and_resets_session_peaks_independently() {
    let mut cells = GpuCells::new(&vec![true]);
    let mut daily = DailyAccumulator::new("2026-08-21".to_owned());
    let sample = FastSample {
        hotspot_millic: Reading::Absent,
        socket_power_microwatts: Reading::Absent,
        partitions: vec![PartitionFast {
            activity_centipercent: Reading::Value(9_500),
            mem_ctl_centipercent: Reading::Absent,
            mem_used_bytes: Reading::Absent,
            mem_total_bytes: Reading::Absent,
        }],
    };
    cells.apply_fast(&sample, Timestamp { unix_nanos: 0 }, 1_000);
    cells.end_tick();
    let last = *cells.partitions[0].session.activity_window().last().unwrap();
    daily.observe_activity("gpu-0000:41:00.0", last.unwrap());
    assert!(daily.take_dirty());
    assert_eq!(
        peaks_of(&daily.record(), "gpu-0000:41:00.0").unwrap().activity_centipercent,
        Some(9_500)
    );
    cells.reset_peaks();
    assert_eq!(cells.partitions[0].session.peak_activity(), None);
    assert_eq!(
        peaks_of(&daily.record(), "gpu-0000:41:00.0").unwrap().activity_centipercent,
        Some(9_500)
    );
}

#[test]
fn memory_peak_compares_occupancy_not_bytes() {
    let mut daily = DailyAccumulator::new("2026-08-21".to_owned());
    daily.observe_memory("gpu-a", 50, 100);
    daily.observe_memory("gpu-a", 60, 1_000);
    assert_eq!(peaks_of(&daily.record(), "gpu-a").unwrap().memory, Some((50, 100)));
    assert!(daily.take_dirty());
    assert!(!daily.take_dirty());
    daily.observe_memory("gpu-a", 3, 4);
    assert_eq!(peaks_of(&daily.record(), "gpu-a").unwrap().memory, Some((3, 4)));
}
