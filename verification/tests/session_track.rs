use gpuflo::state::session::PartitionSession;

#[test]
fn closing_ticks_appends_gaps_and_raises_the_peak() {
    let mut s = PartitionSession::new();
    s.stage_activity(Some(5_000));
    s.end_tick();
    s.stage_activity(None);
    s.end_tick();
    s.stage_activity(Some(9_000));
    s.end_tick();
    assert_eq!(s.activity_window(), vec![Some(5_000), None, Some(9_000)]);
    assert_eq!(s.peak_activity(), Some(9_000));
    s.stage_activity(Some(1_000));
    s.end_tick();
    assert_eq!(s.peak_activity(), Some(9_000));
    s.reset_peak();
    assert_eq!(s.peak_activity(), None);
    s.end_tick();
    assert_eq!(s.peak_activity(), None);
    assert_eq!(s.activity_window().len(), 5);
}

#[test]
fn memory_is_staged_only_with_both_halves_and_a_positive_total() {
    let mut s = PartitionSession::new();
    s.stage_memory(Some(1), None);
    s.end_tick();
    s.stage_memory(Some(1), Some(0));
    s.end_tick();
    s.stage_memory(Some(3), Some(4));
    s.end_tick();
    assert_eq!(s.memory_window(), vec![None, None, Some((3, 4))]);
}

#[test]
fn windows_keep_the_last_240_ticks() {
    let mut s = PartitionSession::new();
    for i in 0..250u64 {
        s.stage_activity(Some(i));
        s.end_tick();
    }
    let window = s.activity_window();
    assert_eq!(window.len(), 240);
    assert_eq!(window[0], Some(10));
    assert_eq!(s.peak_activity(), Some(249));
}
