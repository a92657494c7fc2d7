use gpuflo::cli::{CliArg, CliOptions, CliParser, CliStep, GpuSelector, Invocation, OutputMode, UsageError};
use gpuflo::config::{ModePreference, Theme};
use gpuflo::model::PciBdf;

/// Drives the verified parser with lexopt's argument splitting, as the
/// binary does.
fn run(args: &[&str]) -> Result<Invocation, UsageError> {
    let mut parser = lexopt::Parser::from_args(args.iter().copied());
    let mut cli = CliParser::new();
    loop {
        let next = parser.next().map_err(|e| UsageError(e.to_string()))?;
        let Some(arg) = next else { break };
        let arg = match arg {
            lexopt::Arg::Short(c) => CliArg::Short(c),
            lexopt::Arg::Long(name) => CliArg::Long(name.to_owned()),
            lexopt::Arg::Value(value) => CliArg::Value(value.to_string_lossy().into_owned()),
        };
        match cli.on_arg(&arg)? {
            CliStep::Continue => {}
            CliStep::Finished(invocation) => return Ok(invocation),
            CliStep::NeedValue(flag) => {
                let value = parser.value().map_err(|e| UsageError(e.to_string()))?;
                cli.on_value(flag, value.into_string().ok())?;
            }
        }
    }
    Ok(cli.finish())
}

fn options(args: &[&str]) -> CliOptions {
    match run(args).unwrap() {
        Invocation::Run(options) => options,
        other => panic!("expected run invocation, got {other:?}"),
    }
}

#[test]
fn default_is_interactive() {
    let options = options(&[]);
    assert_eq!(options.output, OutputMode::Interactive);
    assert_eq!(options.gpu, None);
    assert!(!options.no_color);
}

#[test]
fn output_modes_parse_and_exclude_each_other() {
    assert_eq!(options(&["--once"]).output, OutputMode::Once);
    assert_eq!(options(&["--json"]).output, OutputMode::Json);
    assert_eq!(options(&["--json-stream"]).output, OutputMode::JsonStream);
    assert_eq!(options(&["--tiny"]).output, OutputMode::Tiny);
    for pair in [
        ["--once", "--json"],
        ["--json", "--json-stream"],
        ["--tiny", "--once"],
        ["--json-stream", "--tiny"],
    ] {
        assert!(run(&pair).is_err(), "{pair:?} should be rejected");
    }
}

#[test]
fn gpu_selector_forms() {
    assert_eq!(options(&["--gpu", "0"]).gpu, Some(GpuSelector::Index(0)));
    assert_eq!(
        options(&["--gpu", "0000:41:00.0"]).gpu,
        Some(GpuSelector::Bdf(PciBdf::parse("0000:41:00.0").unwrap()))
    );
    assert_eq!(
        options(&["--gpu", "gpu-73fbc1"]).gpu,
        Some(GpuSelector::Id("gpu-73fbc1".to_owned()))
    );
    assert!(run(&["--gpu", ""]).is_err());
    assert!(run(&["--gpu"]).is_err());
}

#[test]
fn visual_flags_parse_and_reject_unknown_values() {
    let options = options(&["--theme", "nord", "--mode", "compact", "--no-color"]);
    assert_eq!(options.theme, Some(Theme::Nord));
    assert_eq!(options.mode, Some(ModePreference::Compact));
    assert!(options.no_color);
    assert!(run(&["--theme", "solarized"]).is_err());
    assert!(run(&["--mode", "full"]).is_err());
}

#[test]
fn unknown_flags_and_positionals_are_usage_errors() {
    assert!(run(&["--frobnicate"]).is_err());
    assert!(run(&["-x"]).is_err());
    assert!(run(&["positional"]).is_err());
}

#[test]
fn help_and_version_win() {
    assert_eq!(run(&["--help"]).unwrap(), Invocation::Help);
    assert_eq!(run(&["--version"]).unwrap(), Invocation::Version);
    assert_eq!(run(&["--json", "--help"]).unwrap(), Invocation::Help);
}

#[test]
fn repeating_the_same_output_flag_is_allowed() {
    assert_eq!(options(&["--json", "--json"]).output, OutputMode::Json);
}

#[test]
fn exclusive_output_error_names_every_output_flag() {
    let error = run(&["--once", "--tiny"]).unwrap_err();
    assert_eq!(
        error.0,
        "--once, --json, --json-stream, and --tiny are mutually exclusive"
    );
}

#[test]
fn unexpected_arguments_are_echoed_in_the_error() {
    assert_eq!(run(&["--frobnicate"]).unwrap_err().0, "unexpected argument: --frobnicate");
    assert_eq!(run(&["-x"]).unwrap_err().0, "unexpected argument: -x");
    assert_eq!(run(&["positional"]).unwrap_err().0, "unexpected argument: positional");
}

#[test]
fn selector_index_must_fit_thirty_two_bits() {
    assert_eq!(GpuSelector::parse("4294967295"), Ok(GpuSelector::Index(u32::MAX)));
    assert!(GpuSelector::parse("4294967296").is_err());
    assert_eq!(GpuSelector::parse("0000:C1:00.0"), Ok(GpuSelector::Bdf(PciBdf::parse("0000:c1:00.0").unwrap())));
}

#[test]
fn non_utf8_value_is_a_usage_error_naming_the_flag() {
    let mut cli = CliParser::new();
    assert_eq!(
        cli.on_arg(&CliArg::Long("theme".to_owned())),
        Ok(CliStep::NeedValue(gpuflo::cli::ValueFlag::Theme))
    );
    let error = cli.on_value(gpuflo::cli::ValueFlag::Theme, None).unwrap_err();
    assert_eq!(error.0, "--theme value is not valid UTF-8");
}

#[test]
fn output_flags_exclude_each_other_across_other_arguments() {
    assert!(run(&["--json", "--no-color", "--gpu", "0", "--once"]).is_err());
    assert!(run(&["--tiny", "--cat", "--tiny"]).is_ok());
}
