use gpuflo::model::PciBdf;
use gpuflo::source::process::{parse_fdinfo, scan_rows, ProcessEvidence, ProcessRow, RowReads};
use gpuflo::source::Reading;

fn reads(name: &str, fdinfo_dir: Reading<()>) -> RowReads {
    RowReads { name: Reading::Value(name.to_owned()), container: None, fdinfo_dir }
}

fn bdf_text(row: &ProcessRow) -> Option<&str> {
    row.bdf.as_ref().map(PciBdf::as_str)
}

#[test]
fn hip_workload_reports_both_accountings_without_reconciling() {
    let client = parse_fdinfo(
        "drm-driver:\tamdgpu\ndrm-pdev:\t0000:03:00.0\ndrm-client-id:\t7\ndrm-resident-vram:\t340104 KiB\ndrm-resident-gtt:\t8240 KiB\n",
    )
    .unwrap();
    let mut evidence = ProcessEvidence::new();
    evidence.record_fdinfo(4242, &client);
    let bdf = PciBdf::parse("0000:03:00.0").unwrap();
    evidence.record_kfd(4242, &Some(bdf), Reading::Value(409_726_976));
    let rows = scan_rows(&evidence, vec![reads("gruflo-hip", Reading::Value(()))]);
    assert_eq!(rows.len(), 1);
    let row = &rows[0];
    assert_eq!(row.pid, 4242);
    assert_eq!(row.name, Reading::Value("gruflo-hip".to_owned()));
    assert_eq!(bdf_text(row), Some("0000:03:00.0"));
    assert_eq!(row.fdinfo_vram_bytes, Reading::Value(340_104 * 1024));
    assert_eq!(row.fdinfo_gtt_bytes, Reading::Value(8_240 * 1024));
    assert_eq!(row.kfd_vram_bytes, Reading::Value(409_726_976));
    assert_eq!(row.container, None);
}

#[test]
fn two_gpus_produce_two_rows_for_one_pid() {
    let a = parse_fdinfo("drm-driver: amdgpu\ndrm-pdev: 0000:03:00.0\ndrm-client-id: 1\ndrm-resident-vram: 10 KiB\n").unwrap();
    let b = parse_fdinfo("drm-driver: amdgpu\ndrm-pdev: 0000:41:00.0\ndrm-client-id: 2\ndrm-resident-vram: 20 KiB\n").unwrap();
    let mut evidence = ProcessEvidence::new();
    evidence.record_fdinfo(101, &a);
    evidence.record_fdinfo(101, &b);
    let rows = scan_rows(&evidence, vec![reads("p", Reading::Value(())), reads("p", Reading::Value(()))]);
    assert_eq!(rows.len(), 2);
    let mut bdfs: Vec<&str> = rows.iter().map(|r| bdf_text(r).unwrap()).collect();
    bdfs.sort();
    assert_eq!(bdfs, vec!["0000:03:00.0", "0000:41:00.0"]);
    assert_eq!(rows[0].fdinfo_vram_bytes, Reading::Value(20 * 1024));
}

#[test]
fn kfd_only_membership_is_reported_with_association() {
    let mut evidence = ProcessEvidence::new();
    let bdf = PciBdf::parse("0000:03:00.0").unwrap();
    evidence.record_kfd(102, &Some(bdf), Reading::Value(1_048_576));
    let rows = scan_rows(&evidence, vec![reads("kfd", Reading::Absent)]);
    assert_eq!(bdf_text(&rows[0]), Some("0000:03:00.0"));
    assert_eq!(rows[0].kfd_vram_bytes, Reading::Value(1_048_576));
    assert_eq!(rows[0].fdinfo_vram_bytes, Reading::Absent);
}

#[test]
fn malformed_units_never_become_numbers() {
    let client = parse_fdinfo("drm-driver:\tamdgpu\ndrm-pdev:\t0000:03:00.0\ndrm-resident-vram:\t5 MB\n").unwrap();
    let mut evidence = ProcessEvidence::new();
    evidence.record_fdinfo(103, &client);
    let rows = scan_rows(&evidence, vec![reads("bad", Reading::Value(()))]);
    assert_eq!(rows[0].fdinfo_vram_bytes, Reading::Malformed);
}

#[test]
fn missing_name_keeps_the_row_with_its_state() {
    let client = parse_fdinfo("drm-driver:\tamdgpu\ndrm-pdev:\t0000:03:00.0\ndrm-resident-vram:\t1 KiB\n").unwrap();
    let mut evidence = ProcessEvidence::new();
    evidence.record_fdinfo(104, &client);
    let rows = scan_rows(
        &evidence,
        vec![RowReads { name: Reading::PermissionDenied, container: None, fdinfo_dir: Reading::Value(()) }],
    );
    assert_eq!(rows.len(), 1);
    assert_eq!(rows[0].name, Reading::PermissionDenied);
    assert_eq!(rows[0].fdinfo_vram_bytes, Reading::Value(1024));
}
