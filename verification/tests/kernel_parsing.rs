use gpuflo::model::{MemoryPool, PciBdf, PhysicalGpuId};
use gpuflo::source::kernel::{
    applicable_pool, bad_pages_signal, bdf_order, device_name, ecc_signal, gpu_identity,
    group_bounds, indep_reasons, is_amd_gpu, is_card_name, join_reasons, node_i64, node_u64,
    parse_gpu_metrics, partition_activity, partition_identity, primary_index, ras_uncorrectable,
    uevent_fields, validate_centipercent, validate_microwatts, validate_millic, BlobError,
    KernelHealthSignal, KernelSource, ThrottleReading, ThrottleReason,
};
use gpuflo::source::{kernel_error_reading, Reading};

#[test]
fn io_error_mapping_distinguishes_asleep_and_permission() {
    let eperm = std::io::Error::from_raw_os_error(1);
    assert_eq!(kernel_error_reading::<u64>(&eperm), Reading::Asleep);
    let eacces = std::io::Error::from_raw_os_error(13);
    assert_eq!(
        kernel_error_reading::<u64>(&eacces),
        Reading::PermissionDenied
    );
    let missing = std::io::Error::new(std::io::ErrorKind::NotFound, "gone");
    assert_eq!(kernel_error_reading::<u64>(&missing), Reading::Absent);
}

#[test]
fn other_io_errors_are_source_errors() {
    let other = std::io::Error::from_raw_os_error(5);
    assert_eq!(kernel_error_reading::<u64>(&other), Reading::Error);
}

#[test]
fn sentinels_are_recognized_before_numeric_validation() {
    // All-ones v1.3 payload: every metric field is the memset sentinel.
    let mut bytes = vec![0xFFu8; 120];
    bytes[0..2].copy_from_slice(&120u16.to_le_bytes());
    bytes[2] = 1;
    bytes[3] = 3;
    let blob = parse_gpu_metrics(&bytes).unwrap();
    assert_eq!(blob.hotspot_millic, Reading::Sentinel);
    assert_eq!(blob.socket_power_microwatts, Reading::Sentinel);
    assert_eq!(blob.activity_centipercent, Reading::Sentinel);
    assert_eq!(blob.energy, None);
}

#[test]
fn domain_validation_rejects_without_clamping() {
    assert_eq!(
        validate_centipercent(Reading::Value(10_001)),
        Reading::Malformed
    );
    assert_eq!(
        validate_centipercent(Reading::Value(10_000)),
        Reading::Value(10_000)
    );
    assert_eq!(
        validate_millic(Reading::Value(-300_000)),
        Reading::Malformed
    );
    assert_eq!(
        validate_microwatts(Reading::Value(30_000_000_000)),
        Reading::Malformed
    );
}

#[test]
fn validation_keeps_boundary_values_and_failures() {
    assert_eq!(validate_millic(Reading::Value(-273_150)), Reading::Value(-273_150));
    assert_eq!(validate_millic(Reading::Value(1_000_000)), Reading::Value(1_000_000));
    assert_eq!(validate_millic(Reading::Value(1_000_001)), Reading::Malformed);
    assert_eq!(validate_microwatts(Reading::Value(20_000_000_000)), Reading::Value(20_000_000_000));
    assert_eq!(validate_centipercent(Reading::Asleep), Reading::Asleep);
}

#[test]
fn short_and_unknown_headers_are_rejected() {
    assert_eq!(parse_gpu_metrics(&[1, 2, 3]), Err(BlobError::Truncated));
    let mut bytes = vec![0u8; 120];
    bytes[0..2].copy_from_slice(&120u16.to_le_bytes());
    bytes[2] = 1;
    bytes[3] = 9;
    assert_eq!(parse_gpu_metrics(&bytes), Err(BlobError::UnsupportedVersion(1, 9)));
    let mut short = vec![0u8; 100];
    short[0..2].copy_from_slice(&120u16.to_le_bytes());
    short[2] = 1;
    short[3] = 3;
    assert_eq!(parse_gpu_metrics(&short), Err(BlobError::Truncated));
}

#[test]
fn text_nodes_parse_trimmed_integers_or_are_malformed() {
    assert_eq!(node_u64(&Reading::Value("  42\n".to_owned())), Reading::Value(42));
    assert_eq!(node_u64(&Reading::Value("4x".to_owned())), Reading::Malformed);
    assert_eq!(node_u64(&Reading::Asleep), Reading::Asleep);
    assert_eq!(node_i64(&Reading::Value("-5".to_owned())), Reading::Value(-5));
    assert_eq!(node_i64(&Reading::Value("".to_owned())), Reading::Malformed);
}

#[test]
fn primary_blob_wins_over_text_and_secondaries_use_text() {
    assert_eq!(partition_activity(true, Reading::Value(9_700), Reading::Value(12)), Reading::Value(9_700));
    assert_eq!(partition_activity(true, Reading::Sentinel, Reading::Value(12)), Reading::Value(1_200));
    assert_eq!(partition_activity(false, Reading::Value(9_700), Reading::Value(12)), Reading::Value(1_200));
    assert_eq!(partition_activity(false, Reading::Value(9_700), Reading::Value(101)), Reading::Malformed);
}

#[test]
fn indep_status_names_reason_groups() {
    let reasons = indep_reasons(0x0000_0001_0000_0001);
    assert_eq!(reasons, vec![ThrottleReason::Power, ThrottleReason::Thermal]);
    assert_eq!(join_reasons(&reasons), "power, thermal");
    assert_eq!(indep_reasons(0x0000_0000_0001_0000), vec![ThrottleReason::Current]);
    assert!(indep_reasons(0).is_empty());
}

#[test]
fn status_throttle_reports_named_groups() {
    let mut source = KernelSource::new(std::path::PathBuf::from("/sys"));
    let gpu = PhysicalGpuId::new("gpu-a");
    let mut health = Vec::new();
    source.throttle_health(
        &gpu,
        &ThrottleReading::Status { status: 1, indep: Some(0x0000_0001_0000_0001) },
        &mut health,
    );
    assert_eq!(health, vec![KernelHealthSignal::ThrottleActive { reasons: "power, thermal".to_owned() }]);
    let mut quiet = Vec::new();
    source.throttle_health(&gpu, &ThrottleReading::Status { status: 0, indep: Some(1) }, &mut quiet);
    assert!(quiet.is_empty());
    let mut unnamed = Vec::new();
    source.throttle_health(&gpu, &ThrottleReading::Status { status: 3, indep: Some(u64::MAX) }, &mut unnamed);
    assert_eq!(unnamed, vec![KernelHealthSignal::ThrottleActive { reasons: String::new() }]);
}

#[test]
fn residency_throttle_needs_an_advancing_accumulator() {
    let mut source = KernelSource::new(std::path::PathBuf::from("/sys"));
    let gpu = PhysicalGpuId::new("gpu-a");
    let first = ThrottleReading::Residency { counter: 100, prochot: 0, ppt: 0, socket_thm: 5, vr_thm: 0, hbm_thm: 0 };
    let mut health = Vec::new();
    source.throttle_health(&gpu, &first, &mut health);
    assert!(health.is_empty());
    source.throttle_health(&gpu, &first, &mut health);
    assert!(health.is_empty());
    source.throttle_health(
        &gpu,
        &ThrottleReading::Residency { counter: 110, prochot: 0, ppt: 0, socket_thm: 9, vr_thm: 0, hbm_thm: 0 },
        &mut health,
    );
    assert_eq!(health, vec![KernelHealthSignal::ThrottleActive { reasons: "thermal".to_owned() }]);
}

#[test]
fn ras_counts_sum_uncorrectable_lines() {
    assert_eq!(ras_uncorrectable("ue: 2\nce: 7\n"), 2);
    assert_eq!(ras_uncorrectable("  ue:  3  \nue: x\nue:1"), 4);
    assert_eq!(ras_uncorrectable(""), 0);
    let nodes = vec![
        ("umc_err_count".to_owned(), Reading::Value("ue: 1\nce: 0\n".to_owned())),
        ("gfx_err_count".to_owned(), Reading::Value("ue: 1\n".to_owned())),
        ("features".to_owned(), Reading::Value("ue: 9\n".to_owned())),
        ("sdma_err_count".to_owned(), Reading::PermissionDenied),
    ];
    assert_eq!(ecc_signal(&nodes), Some(KernelHealthSignal::EccErrors { uncorrectable: 2 }));
    assert_eq!(ecc_signal(&Vec::new()), None);
}

#[test]
fn bad_pages_count_pending_and_unreservable_flags() {
    let text = "0x00000001 : 0x00001000 : R\n0x00000002 : 0x00001000 : P\n0x00000003 : 0x00001000 : F\n";
    assert_eq!(
        bad_pages_signal(&Reading::Value(text.to_owned())),
        Some(KernelHealthSignal::BadPages { pending: 1, unreservable: 1 })
    );
    assert_eq!(bad_pages_signal(&Reading::Value("0x1 : 0x1000 : R\n".to_owned())), None);
    assert_eq!(bad_pages_signal(&Reading::Absent), None);
}

#[test]
fn discovery_decisions_follow_sysfs_conventions() {
    assert!(is_card_name("card0"));
    assert!(is_card_name("card12"));
    assert!(!is_card_name("card"));
    assert!(!is_card_name("card0-DP-1"));
    assert!(!is_card_name("renderD128"));
    let (driver, slot) = uevent_fields("DRIVER=amdgpu\nPCI_CLASS=30000\nPCI_SLOT_NAME=0000:41:00.0\n");
    assert_eq!(driver.as_deref(), Some("amdgpu"));
    assert_eq!(slot.as_deref(), Some("0000:41:00.0"));
    assert!(is_amd_gpu(&Some("amdgpu".to_owned()), "0x1002"));
    assert!(!is_amd_gpu(&Some("radeon".to_owned()), "0x1002"));
    assert!(!is_amd_gpu(&Some("amdgpu".to_owned()), "0x10de"));
}

#[test]
fn identity_name_and_pool_follow_the_primary_partition() {
    let bdf = PciBdf::parse("0000:c4:00.0").unwrap();
    assert_eq!(gpu_identity(&Some("73fbc17bb4b8d1ce".to_owned()), &bdf).as_str(), "gpu-73fbc17bb4b8d1ce");
    assert_eq!(gpu_identity(&None, &bdf).as_str(), "gpu-0000:c4:00.0");
    assert_eq!(device_name(Some("AMD Instinct MI210".to_owned()), None), "AMD Instinct MI210");
    assert_eq!(device_name(None, Some("0x15bf".to_owned())), "AMD GPU 0x15bf");
    assert_eq!(device_name(None, None), "AMD GPU");
    let (pool, used, total) = applicable_pool(Reading::Value(512), Reading::Value(1024));
    assert_eq!((pool, used, total), (MemoryPool::GTT, "mem_info_gtt_used", "mem_info_gtt_total"));
    let (pool, _, _) = applicable_pool(Reading::Value(1024), Reading::Value(1024));
    assert_eq!(pool, MemoryPool::VRAM);
    let gpu = PhysicalGpuId::new("gpu-a");
    assert_eq!(partition_identity(&gpu, 1).as_str(), "gpu-a-xcp-1");
    assert_eq!(primary_index(&vec![false, true, true]), 1);
    assert_eq!(primary_index(&vec![false, false]), 0);
}

#[test]
fn functions_group_by_domain_and_bus_in_address_order() {
    let bdfs: Vec<PciBdf> = ["0000:41:00.1", "0000:03:00.0", "0000:41:00.0"]
        .iter()
        .map(|t| PciBdf::parse(t).unwrap())
        .collect();
    let order = bdf_order(&bdfs);
    assert_eq!(order, vec![1, 2, 0]);
    let sorted: Vec<PciBdf> = order.iter().map(|&i| bdfs[i].clone()).collect();
    assert_eq!(group_bounds(&sorted), vec![(0, 1), (1, 3)]);
    assert!(group_bounds(&Vec::new()).is_empty());
}

#[test]
fn partition_layout_names_each_function_and_marks_one_primary() {
    let gpu = gpuflo::model::PhysicalGpuId::new("gpu-a");
    let bdfs = vec![
        gpuflo::model::PciBdf::parse("0000:41:00.0").unwrap(),
        gpuflo::model::PciBdf::parse("0000:41:00.1").unwrap(),
        gpuflo::model::PciBdf::parse("0000:41:00.2").unwrap(),
    ];
    let (primary, layout) = gpuflo::source::kernel::partition_layout(&gpu, &bdfs, &vec![false, true, true]);
    assert_eq!(primary, 1);
    let ids: Vec<&str> = layout.iter().map(|p| p.id.as_str()).collect();
    assert_eq!(ids, vec!["gpu-a-xcp-0", "gpu-a-xcp-1", "gpu-a-xcp-2"]);
    let primaries: Vec<bool> = layout.iter().map(|p| p.is_primary).collect();
    assert_eq!(primaries, vec![false, true, false]);
    assert_eq!(layout[2].bdf.as_str(), "0000:41:00.2");
    let (primary, _) = gpuflo::source::kernel::partition_layout(&gpu, &bdfs, &vec![false, false, false]);
    assert_eq!(primary, 0);
}
