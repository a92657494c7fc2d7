use gpuflo::cli::GpuSelector;
use gpuflo::model::{PciBdf, PhysicalGpuId};
use gpuflo::run::{
    interactive_exit, one_shot_exit, select_gpu, selection_failure_exit, stream_exit,
    InteractiveEnd, StreamEnd, WriteOutcome, EXIT_FATAL, EXIT_OK, EXIT_SIGINT, EXIT_USAGE,
};
use gpuflo::ui::GpuEntry;

fn gpus() -> Vec<GpuEntry> {
    vec![
        GpuEntry { id: PhysicalGpuId::new("gpu-a"), index: 0, bdf: PciBdf::parse("0000:03:00.0").unwrap() },
        GpuEntry { id: PhysicalGpuId::new("gpu-b"), index: 1, bdf: PciBdf::parse("0000:c3:00.0").unwrap() },
    ]
}

#[test]
fn one_shot_output_exits_by_write_and_shutdown() {
    assert_eq!(one_shot_exit(WriteOutcome::Written, true), EXIT_OK);
    assert_eq!(one_shot_exit(WriteOutcome::BrokenPipe, true), EXIT_OK);
    assert_eq!(one_shot_exit(WriteOutcome::Failed, true), EXIT_FATAL);
    assert_eq!(one_shot_exit(WriteOutcome::Written, false), EXIT_FATAL);
}

#[test]
fn stream_interruption_exits_130() {
    assert_eq!(stream_exit(StreamEnd::Interrupted, true), EXIT_SIGINT);
    assert_eq!(stream_exit(StreamEnd::BrokenPipe, false), EXIT_OK);
    assert_eq!(stream_exit(StreamEnd::MonitorFatal, true), EXIT_FATAL);
    assert_eq!(stream_exit(StreamEnd::Interrupted, false), EXIT_FATAL);
}

#[test]
fn interactive_exit_codes_follow_how_the_session_ended() {
    assert_eq!(interactive_exit(InteractiveEnd::Quit, false, false), EXIT_OK);
    assert_eq!(interactive_exit(InteractiveEnd::Stopped { sigint: true }, false, false), EXIT_SIGINT);
    assert_eq!(interactive_exit(InteractiveEnd::Stopped { sigint: true }, true, false), EXIT_SIGINT);
    assert_eq!(interactive_exit(InteractiveEnd::Stopped { sigint: false }, false, false), EXIT_OK);
    assert_eq!(interactive_exit(InteractiveEnd::Quit, true, false), EXIT_FATAL);
    assert_eq!(interactive_exit(InteractiveEnd::MonitorFatal, false, false), EXIT_FATAL);
}

#[test]
fn one_shot_selection_names_what_is_available() {
    assert_eq!(select_gpu(&gpus(), &None), Ok(0));
    assert_eq!(select_gpu(&gpus(), &Some(GpuSelector::Id("gpu-b".to_owned()))), Ok(1));
    assert_eq!(
        select_gpu(&gpus(), &Some(GpuSelector::Index(7))),
        Err("no GPU matches the selector; available: 0 (gpu-a, 0000:03:00.0), 1 (gpu-b, 0000:c3:00.0)".to_owned())
    );
    assert_eq!(select_gpu(&Vec::new(), &None), Err("no GPU discovered".to_owned()));
    assert_eq!(selection_failure_exit(true), EXIT_FATAL);
    assert_eq!(selection_failure_exit(false), EXIT_USAGE);
}
