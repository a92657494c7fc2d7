use gpuflo::model::PciBdf;
use gpuflo::source::process::{
    comm_name, container_id, dedup_key, fdinfo_reading, fdinfo_status, kfd_node_bdf,
    kfd_properties, kfd_vram_reading, merge_status, parse_fdinfo, parse_kib, row_of,
    scoped_rows, sort_rows, ProcessEvidence, ProcessRow, SeenClients,
};
use gpuflo::source::{process_error_reading, Reading};

#[test]
fn no_row_ever_claims_utilization() {
    // Structural guarantee: ProcessRow has no utilization or engine-time
    // field. This test documents the contract at the type level.
    let row = ProcessRow {
        pid: 1,
        name: Reading::Value("x".into()),
        bdf: None,
        fdinfo_vram_bytes: Reading::Absent,
        fdinfo_gtt_bytes: Reading::Absent,
        kfd_vram_bytes: Reading::Absent,
        container: None,
    };
    let debug = format!("{row:?}");
    assert!(!debug.contains("percent"));
    assert!(!debug.contains("engine"));
}

#[test]
fn extreme_fdinfo_quantity_is_malformed_instead_of_wrapping() {
    assert_eq!(fdinfo_reading(Some(u64::MAX), Reading::Absent), Reading::Malformed);
}

#[test]
fn fdinfo_memory_units_normalize_to_kib() {
    assert_eq!(parse_kib("26640 KiB"), Ok(26_640));
    assert_eq!(parse_kib("2 MiB"), Ok(2_048));
    assert_eq!(parse_kib("1 GiB"), Ok(1024 * 1024));
    assert_eq!(parse_kib("0"), Ok(0));
    assert!(parse_kib("2 MB").is_err());
}

#[test]
fn process_names_are_sanitized_before_rendering() {
    assert_eq!(comm_name("safe\u{1b}]0;owned\u{7}\n"), "safe\u{fffd}]0;owned\u{fffd}");
}

#[test]
fn process_eperm_is_permission_not_gpu_sleep() {
    assert_eq!(
        process_error_reading::<u64>(&std::io::Error::from_raw_os_error(1)),
        Reading::PermissionDenied
    );
    assert_eq!(
        process_error_reading::<u64>(&std::io::Error::from_raw_os_error(13)),
        Reading::PermissionDenied
    );
}

#[test]
fn missing_process_files_are_absent() {
    let missing = std::io::Error::new(std::io::ErrorKind::NotFound, "gone");
    assert_eq!(process_error_reading::<u64>(&missing), Reading::Absent);
}

#[test]
fn fdinfo_bytes_are_kib_times_1024_and_states_are_explicit() {
    assert_eq!(fdinfo_reading(Some(340_104), Reading::Value(())), Reading::Value(340_104 * 1024));
    assert_eq!(fdinfo_reading(None, Reading::Value(())), Reading::Absent);
    assert_eq!(fdinfo_reading(None, Reading::PermissionDenied), Reading::PermissionDenied);
    assert_eq!(parse_kib(" 12 "), Ok(12));
    assert!(parse_kib("18014398509481984 GiB").is_err());
    assert!(parse_kib("KiB").is_err());
}

#[test]
fn container_identity_is_derived_from_known_cgroup_patterns() {
    assert_eq!(
        container_id("0::/system.slice/docker-abcdef1234567890.scope\n").as_deref(),
        Some("docker:abcdef123456")
    );
    assert_eq!(
        container_id("0::/kubepods/crio-0123456789abcdef\n").as_deref(),
        Some("crio:0123456789ab")
    );
    assert_eq!(
        container_id("0::/x/cri-containerd-aaaaaaaaaaaaaaaa.scope").as_deref(),
        Some("containerd:aaaaaaaaaaaa")
    );
    assert_eq!(container_id("0::/machine/libpod-bbbbbbbbbbbbb").as_deref(), Some("podman:bbbbbbbbbbbb"));
    assert_eq!(container_id("0::/user.slice/docker-abc.scope\n"), None);
    assert_eq!(container_id("0::/user.slice/docker-zzzzzzzzzzzzzz\n"), None);
    assert_eq!(container_id(""), None);
}

#[test]
fn fdinfo_entries_parse_amdgpu_clients_only() {
    let text = "pos:\t0\nflags:\t02100002\ndrm-driver:\tamdgpu\ndrm-pdev:\t0000:03:00.0\ndrm-client-id:\t7\ndrm-resident-vram:\t340104 KiB\ndrm-resident-gtt:\t8240 KiB\n";
    let client = parse_fdinfo(text).unwrap();
    assert_eq!(client.pdev.as_ref().map(PciBdf::as_str), Some("0000:03:00.0"));
    assert_eq!(client.client_id, "7");
    assert_eq!(client.vram_kib, Some(Ok(340_104)));
    assert_eq!(client.gtt_kib, Some(Ok(8_240)));
    assert!(parse_fdinfo("pos:\t0\ndrm-driver:\ti915\n").is_none());
    let bad = parse_fdinfo("drm-driver:\tamdgpu\ndrm-resident-vram:\t5 MB\n").unwrap();
    assert_eq!(bad.vram_kib, Some(Err(())));
}

#[test]
fn duplicate_fds_for_one_client_count_once() {
    let client = parse_fdinfo("drm-driver: amdgpu\ndrm-pdev: 0000:03:00.0\ndrm-client-id: 9\ndrm-resident-vram: 100000 KiB\n").unwrap();
    let mut seen = SeenClients::new();
    let mut evidence = ProcessEvidence::new();
    for fd_name in ["5", "5", "6"] {
        let key = dedup_key(&client.client_id, fd_name);
        if seen.first_sighting(&client.pdev, &key) {
            evidence.record_fdinfo(100, &client);
        }
    }
    assert_eq!(evidence.entries().len(), 1);
    let row = row_of(&evidence.entries()[0], Reading::Value("x".to_owned()), None, Reading::Value(()));
    assert_eq!(row.fdinfo_vram_bytes, Reading::Value(100_000 * 1024));
}

#[test]
fn kfd_membership_is_reported_with_association() {
    let (domain, location) = kfd_properties("cpu_cores_count 0\ndomain 0\nlocation_id 768\n");
    assert_eq!((domain, location), (0, Some(768)));
    let bdf = kfd_node_bdf(domain, location.unwrap()).unwrap();
    assert_eq!(bdf.as_str(), "0000:03:00.0");
    assert_eq!(kfd_vram_reading(&Reading::Value("1048576\n".to_owned())), Reading::Value(1_048_576));
    let mut evidence = ProcessEvidence::new();
    evidence.record_kfd(102, &Some(bdf), Reading::Value(1_048_576));
    let row = row_of(&evidence.entries()[0], Reading::Absent, None, Reading::Absent);
    assert_eq!(row.kfd_vram_bytes, Reading::Value(1_048_576));
    assert_eq!(row.fdinfo_vram_bytes, Reading::Absent);
    assert_eq!(row.name, Reading::Absent);
}

fn row(pid: u32, fdinfo: Reading<u64>, kfd: Reading<u64>) -> ProcessRow {
    ProcessRow {
        pid,
        name: Reading::Absent,
        bdf: None,
        fdinfo_vram_bytes: fdinfo,
        fdinfo_gtt_bytes: Reading::Absent,
        kfd_vram_bytes: kfd,
        container: None,
    }
}

#[test]
fn rows_sort_by_attributed_memory_descending() {
    let rows = vec![
        row(3, Reading::Value(10), Reading::Absent),
        row(1, Reading::Malformed, Reading::Value(30)),
        row(2, Reading::Value(20), Reading::Value(5)),
        row(4, Reading::Absent, Reading::Absent),
    ];
    let sorted = sort_rows(rows);
    let pids: Vec<u32> = sorted.iter().map(|r| r.pid).collect();
    assert_eq!(pids, vec![1, 2, 3, 4]);
}

#[test]
fn scope_keeps_scoped_and_unattributed_rows() {
    let mut other = row(1, Reading::Absent, Reading::Absent);
    other.bdf = Some(PciBdf::parse("0000:41:00.0").unwrap());
    let mut mine = row(2, Reading::Absent, Reading::Absent);
    mine.bdf = Some(PciBdf::parse("0000:03:00.0").unwrap());
    let unattributed = row(3, Reading::PermissionDenied, Reading::Absent);
    let rows = vec![other, mine, unattributed];
    let kept = scoped_rows(&rows, &vec![false, true, false]);
    let pids: Vec<u32> = kept.iter().map(|r| r.pid).collect();
    assert_eq!(pids, vec![2, 3]);
}

#[test]
fn directory_statuses_merge_to_the_most_informative() {
    assert_eq!(merge_status(Reading::Value(()), Reading::PermissionDenied), Reading::PermissionDenied);
    assert_eq!(fdinfo_status(&vec![]), Reading::Absent);
}
