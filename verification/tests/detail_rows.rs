use gpuflo::model::{MemoryPool, Observation, ObservationState, PciBdf, PhysicalGpuId, Timestamp};
use gpuflo::ui::detail::{detail_rows, DetailPartition, DetailView};

fn at(n: i128) -> Timestamp {
    Timestamp::from_unix_nanos(n)
}

fn value<T>(value: T) -> Observation<T> {
    Observation::Value { value, observed_at: at(0) }
}

fn view(primary: Option<DetailPartition>) -> DetailView {
    DetailView {
        name: "AMD Instinct MI300X".to_owned(),
        index: 0,
        id: PhysicalGpuId::new("gpu-a"),
        bdf: PciBdf::parse("0000:03:00.0").unwrap(),
        uuid: Some("uuid-a".to_owned()),
        serial: None,
        sampled_at: at(4_200_000_000),
        primary,
        hotspot_millic: value(87_500),
        hotspot_limit_millic: Observation::Unavailable { state: ObservationState::STALE, observed_at: Some(at(0)) },
        socket_microwatts: value(318_400_000),
        power_cap_microwatts: Observation::Unavailable { state: ObservationState::PERMISSION_DENIED, observed_at: None },
    }
}

fn rows(v: &DetailView) -> Vec<(String, String, bool)> {
    detail_rows(v).into_iter().map(|r| (r.label, r.value, r.unavailable)).collect()
}

fn row(label: &str, value: &str, unavailable: bool) -> (String, String, bool) {
    (label.to_owned(), value.to_owned(), unavailable)
}

#[test]
fn detail_rows_name_every_metric_or_its_exact_state() {
    let partition = DetailPartition {
        activity_centipercent: value(9_750),
        pool: MemoryPool::VRAM,
        mem_used_bytes: value(96 * 1024 * 1024 * 1024),
        mem_total_bytes: value(192 * 1024 * 1024 * 1024),
        gfx_clock_hz: value(2_100_000_000),
        mem_ctl_centipercent: Observation::Unavailable { state: ObservationState::ASLEEP, observed_at: None },
    };
    assert_eq!(
        rows(&view(Some(partition))),
        vec![
            row("gpu", "AMD Instinct MI300X · GPU 0", false),
            row("id", "gpu-a", false),
            row("bdf", "0000:03:00.0", false),
            row("uuid", "uuid-a", false),
            row("", "", false),
            row("activity", "98%", false),
            row("pool", "VRAM", false),
            row("memory used", "96.0 GiB", false),
            row("memory total", "192.0 GiB", false),
            row("occupancy", "50%", false),
            row("GFX clock", "2100 MHz", false),
            row("memory-controller", "asleep", true),
            row("hotspot", "88°C", false),
            row("hotspot limit", "stale 4.2s", true),
            row("power", "318 W", false),
            row("power cap", "permission denied", true),
        ]
    );
}

#[test]
fn detail_rows_without_a_partition_keep_identity_and_socket_rows() {
    let mut v = view(None);
    v.hotspot_millic = value(-400);
    let r = rows(&v);
    assert_eq!(r.len(), 9);
    assert_eq!(r[5], row("hotspot", "-0°C", false));
}

fn asleep<T>() -> Observation<T> {
    Observation::Unavailable { state: ObservationState::ASLEEP, observed_at: None }
}

#[test]
fn detail_overlay_names_exact_observation_states() {
    let last_good = at(1_000_000_000);
    let partition = DetailPartition {
        activity_centipercent: asleep(),
        pool: MemoryPool::VRAM,
        mem_used_bytes: asleep(),
        mem_total_bytes: value(24 * 1024 * 1024 * 1024),
        gfx_clock_hz: Observation::Unavailable { state: ObservationState::STALE, observed_at: Some(last_good) },
        mem_ctl_centipercent: Observation::Unavailable {
            state: ObservationState::UNSUPPORTED_HARDWARE,
            observed_at: None,
        },
    };
    let v = DetailView {
        name: "AMD Radeon RX 7900 XTX".to_owned(),
        index: 1,
        id: PhysicalGpuId::new("gpu-b"),
        bdf: PciBdf::parse("0000:c3:00.0").unwrap(),
        uuid: None,
        serial: None,
        sampled_at: at(5_200_000_000),
        primary: Some(partition),
        hotspot_millic: Observation::Unavailable { state: ObservationState::STALE, observed_at: Some(last_good) },
        hotspot_limit_millic: asleep(),
        socket_microwatts: asleep(),
        power_cap_microwatts: value(355_000_000),
    };
    let text: String = rows(&v).into_iter().map(|(l, value, _)| format!("{l} {value}\n")).collect();
    assert!(text.contains("asleep"), "exact asleep phrase missing");
    assert!(text.contains("stale 4.2s"), "stale age missing: {text}");
    assert!(text.contains("unsupported hardware"), "exact unsupported phrase missing");
    assert!(text.contains("0000:c3:00.0"));
}
