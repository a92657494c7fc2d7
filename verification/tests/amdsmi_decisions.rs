use gpuflo::source::amdsmi::{
    activity_reading, activity_readings, decode_bdf, init_outcome, is_gpu_processor, mib_reading,
    processor_count_usable, socket_count_outcome, status_reading, version_outcome, vram_readings,
    AmdSmiUnavailable, IMPLAUSIBLE_ENUMERATION, KNOWN_ABI_MAJOR, KNOWN_ABI_YEAR,
    PROCESSOR_TYPE_AMD_GPU, STATUS_NOT_SUPPORTED, STATUS_NO_PERM, STATUS_SUCCESS,
};
use gpuflo::source::Reading;

#[test]
fn status_codes_map_to_distinct_states() {
    assert_eq!(
        status_reading::<u64>(STATUS_NOT_SUPPORTED),
        Reading::Sentinel
    );
    assert_eq!(
        status_reading::<u64>(STATUS_NO_PERM),
        Reading::PermissionDenied
    );
    assert_eq!(status_reading::<u64>(7), Reading::Error);
    assert_eq!(activity_reading(0xFFFF), Reading::Sentinel);
    assert_eq!(activity_reading(101), Reading::Malformed);
    assert_eq!(activity_reading(55), Reading::Value(55));
}

#[test]
fn bdf_decoding_follows_the_checked_bit_layout() {
    let raw = (0x0002u64 << 16) | (0xC1 << 8) | (0x03 << 3) | 0x1;
    assert_eq!(decode_bdf(raw).unwrap().as_str(), "0002:c1:03.1");
}

#[test]
fn mib_quantities_widen_to_bytes_and_all_ones_is_a_sentinel() {
    assert_eq!(mib_reading(196_608), Reading::Value(196_608 * 1024 * 1024));
    assert_eq!(mib_reading(u32::MAX), Reading::Sentinel);
    assert_eq!(activity_reading(u32::MAX), Reading::Sentinel);
    assert_eq!(activity_reading(100), Reading::Value(100));
}

#[test]
fn init_and_version_gate_enrichment() {
    assert_eq!(init_outcome(STATUS_SUCCESS), Ok(()));
    assert_eq!(init_outcome(3), Err(AmdSmiUnavailable::InitFailed(3)));
    assert_eq!(version_outcome(STATUS_SUCCESS, KNOWN_ABI_YEAR, KNOWN_ABI_MAJOR), Ok(()));
    assert_eq!(
        version_outcome(STATUS_SUCCESS, 26, KNOWN_ABI_MAJOR),
        Err(AmdSmiUnavailable::IncompatibleVersion(26, KNOWN_ABI_MAJOR))
    );
    assert_eq!(version_outcome(9, KNOWN_ABI_YEAR, KNOWN_ABI_MAJOR), Err(AmdSmiUnavailable::InitFailed(9)));
}

#[test]
fn implausible_socket_count_disables_enrichment() {
    assert_eq!(socket_count_outcome(STATUS_SUCCESS, 2), Ok(2));
    assert_eq!(
        socket_count_outcome(STATUS_SUCCESS, 1025),
        Err(AmdSmiUnavailable::EnumerationFailed(IMPLAUSIBLE_ENUMERATION))
    );
    assert_eq!(socket_count_outcome(4, 2), Err(AmdSmiUnavailable::EnumerationFailed(4)));
    assert!(processor_count_usable(STATUS_SUCCESS, 1024));
    assert!(!processor_count_usable(STATUS_SUCCESS, 1025));
    assert!(is_gpu_processor(STATUS_SUCCESS, PROCESSOR_TYPE_AMD_GPU));
    assert!(!is_gpu_processor(STATUS_SUCCESS, 2));
    assert!(!is_gpu_processor(5, PROCESSOR_TYPE_AMD_GPU));
}

#[test]
fn failed_metric_calls_fail_both_readings_alike() {
    assert_eq!(activity_readings(STATUS_SUCCESS, 97, 42), (Reading::Value(97), Reading::Value(42)));
    assert_eq!(
        activity_readings(STATUS_NO_PERM, 97, 42),
        (Reading::PermissionDenied, Reading::PermissionDenied)
    );
    assert_eq!(
        vram_readings(STATUS_SUCCESS, 1, 2),
        (Reading::Value(1024 * 1024), Reading::Value(2 * 1024 * 1024))
    );
    assert_eq!(vram_readings(STATUS_NOT_SUPPORTED, 1, 2), (Reading::Sentinel, Reading::Sentinel));
}
