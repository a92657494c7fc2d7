//! The fixed command-line surface as a step machine over parsed arguments.
//!
//! Accepted options are exactly `--help`, `--version`, `--once`, `--json`,
//! `--json-stream`, `--tiny`, `--gpu`, `--theme`, `--mode`, `--no-color`, and
//! `--cat`.
use vstd::prelude::*;
use crate::config::{ModePreference, Theme, is_theme_name, is_mode_name, debug_quoted};
use crate::model::{PciBdf, is_bdf_text, lowercase};
use crate::text::{
    chars_of, same_text, extend_chars, string_of, parse_u32_digits, all_digits, digits_value,
    char_is_digit,
};

verus! {

/// Which surface the invocation selects.
#[derive(Debug, Clone, Copy, PartialEq, Eq, Structural)]
pub enum OutputMode {
    /// Interactive TUI (default).
    Interactive,
    /// One human line per physical GPU.
    Once,
    /// One pretty all-GPU JSON snapshot.
    Json,
    /// Compact NDJSON at production cadence.
    JsonStream,
    /// One selected-GPU human status line.
    Tiny,
}

/// A command-line usage error; maps to exit 2.
#[derive(Debug, Clone, PartialEq, Eq)]
pub struct UsageError(pub String);

/// `--gpu` selector: display index, stable id, or PCI BDF.
#[derive(Debug, PartialEq, Eq)]
pub enum GpuSelector {
    Index(u32),
    Bdf(PciBdf),
    Id(String),
}

impl Clone for GpuSelector {
    fn clone(&self) -> (r: Self)
        ensures
            r == *self,
    {
        match self {
            GpuSelector::Index(i) => GpuSelector::Index(*i),
            GpuSelector::Bdf(b) => GpuSelector::Bdf(b.clone()),
            GpuSelector::Id(s) => GpuSelector::Id(s.clone()),
        }
    }
}

/// The usage error a `--gpu` value gives, if any: an empty value, or digits
/// beyond 32 bits.
pub open spec fn selector_error(text: Seq<char>) -> Option<Seq<char>> {
    if text.len() == 0 {
        Some("--gpu requires an index, id, or PCI BDF"@)
    } else if all_digits(text) && digits_value(text) > u32::MAX {
        Some("GPU index out of range: "@ + text)
    } else {
        None
    }
}

/// The selector a nonempty `--gpu` value names: digits are a display
/// index, a valid PCI address is a BDF (lowercased), anything else an id.
pub open spec fn selects_text(text: Seq<char>, s: GpuSelector) -> bool {
    text.len() > 0 && match s {
        GpuSelector::Index(i) => all_digits(text) && i == digits_value(text),
        GpuSelector::Bdf(b) => !all_digits(text) && is_bdf_text(text) && b@ == lowercase(text),
        GpuSelector::Id(id) => !all_digits(text) && !is_bdf_text(text) && id@ == text,
    }
}

/// What a `--gpu` value does: stores the selector it names, or fails with
/// its usage error.
pub open spec fn gpu_value_outcome(
    v: Seq<char>,
    r: Result<(), UsageError>,
    gpu: Option<GpuSelector>,
) -> bool {
    match r {
        Ok(_) => selector_error(v) is None && (gpu matches Some(s) && selects_text(v, s)),
        Err(e) => selector_error(v) == Some(e.0@),
    }
}

/// What a `--theme` value does: succeeds exactly on a theme name, and is
/// otherwise refused with the accepted names.
pub open spec fn theme_value_outcome(v: Seq<char>, r: Result<(), UsageError>) -> bool {
    &&& (r is Ok) == is_theme_name(v)
    &&& (r is Err ==> r->Err_0.0@ == "unknown theme "@ + debug_quoted(v)
        + "; expected buffalo, nord, or monochrome"@)
}

/// What a `--mode` value does: succeeds exactly on a preference name, and is
/// otherwise refused with the accepted names.
pub open spec fn mode_value_outcome(v: Seq<char>, r: Result<(), UsageError>) -> bool {
    &&& (r is Ok) == is_mode_name(v)
    &&& (r is Err ==> r->Err_0.0@ == "unknown mode "@ + debug_quoted(v)
        + "; expected auto, mode, compact, mini, or tiny"@)
}

impl GpuSelector {
    /// Parses a selector: digits are a display index (which must fit in
    /// 32 bits), a valid PCI address is a BDF, anything else nonempty is a
    /// stable id.
    pub fn parse(text: &str) -> (r: Result<GpuSelector, UsageError>)
        ensures
            match r {
                Ok(s) => selector_error(text@) is None && selects_text(text@, s),
                Err(e) => selector_error(text@) == Some(e.0@),
            },
            text@.len() == 0 ==> (r matches Err(e) && e.0@
                == "--gpu requires an index, id, or PCI BDF"@),
            text@.len() > 0 && all_digits(text@) ==> (if digits_value(text@) <= u32::MAX {
                r matches Ok(GpuSelector::Index(i)) && i == digits_value(text@)
            } else {
                r matches Err(e) && e.0@ == "GPU index out of range: "@ + text@
            }),
            text@.len() > 0 && !all_digits(text@) && is_bdf_text(text@) ==> (r matches Ok(
                GpuSelector::Bdf(b),
            ) && b@ == lowercase(text@)),
            text@.len() > 0 && !all_digits(text@) && !is_bdf_text(text@) ==> (r matches Ok(
                GpuSelector::Id(id),
            ) && id@ == text@),
    {
        let chars = chars_of(text);
        if chars.len() == 0 {
            return Err(UsageError("--gpu requires an index, id, or PCI BDF".to_owned()));
        }
        let mut digits = true;
        let mut i: usize = 0;
        while i < chars.len()
            invariant
                i <= chars.len(),
                chars@ == text@,
                digits == (forall|j: int| 0 <= j < i ==> crate::text::is_digit(#[trigger] chars@[j])),
            decreases chars.len() - i,
        {
            if !char_is_digit(chars[i]) {
                digits = false;
            }
            i = i + 1;
        }
        if digits {
            return match parse_u32_digits(&chars) {
                Some(v) => Ok(GpuSelector::Index(v)),
                None => {
                    let mut out: Vec<char> = Vec::new();
                    extend_chars(&mut out, "GPU index out of range: ");
                    extend_chars(&mut out, text);
                    Err(UsageError(string_of(&out)))
                },
            };
        }
        match PciBdf::parse(text) {
            Ok(bdf) => Ok(GpuSelector::Bdf(bdf)),
            Err(_) => Ok(GpuSelector::Id(text.to_owned())),
        }
    }
}

/// Parsed command line before configuration merging.
#[derive(Debug, PartialEq, Eq)]
pub struct CliOptions {
    pub output: OutputMode,
    pub gpu: Option<GpuSelector>,
    pub theme: Option<Theme>,
    pub mode: Option<ModePreference>,
    pub no_color: bool,
    pub cat: bool,
}

impl Clone for CliOptions {
    fn clone(&self) -> (r: Self)
        ensures
            r == *self,
    {
        CliOptions {
            output: self.output,
            gpu: match &self.gpu {
                Some(g) => Some(g.clone()),
                None => None,
            },
            theme: self.theme,
            mode: self.mode,
            no_color: self.no_color,
            cat: self.cat,
        }
    }
}

/// Complete parse result.
#[derive(Debug, PartialEq, Eq)]
pub enum Invocation {
    Help,
    Version,
    Run(CliOptions),
}

/// One command-line argument as the argument splitter delivers it.
#[derive(Debug, Clone, PartialEq, Eq)]
pub enum CliArg {
    /// `-c`.
    Short(char),
    /// `--name`, without the dashes.
    Long(String),
    /// A positional value (rendered lossily when it is not UTF-8).
    Value(String),
}

/// A flag whose value the splitter must fetch next.
#[derive(Debug, Clone, Copy, PartialEq, Eq, Structural)]
pub enum ValueFlag {
    Gpu,
    Theme,
    Mode,
}

impl ValueFlag {
    pub open spec fn spec_flag(self) -> Seq<char> {
        match self {
            ValueFlag::Gpu => "--gpu"@,
            ValueFlag::Theme => "--theme"@,
            ValueFlag::Mode => "--mode"@,
        }
    }
}

/// What the parser needs after one argument.
#[derive(Debug, PartialEq, Eq)]
pub enum CliStep {
    /// Read the next argument.
    Continue,
    /// Fetch the value of this flag and hand it to [`CliParser::on_value`].
    NeedValue(ValueFlag),
    /// Parsing is over with this result (`--help` or `--version`).
    Finished(Invocation),
}

/// The output mode a flag name selects, if it is an output flag.
pub open spec fn output_flag(name: Seq<char>) -> Option<OutputMode> {
    if name == "once"@ {
        Some(OutputMode::Once)
    } else if name == "json"@ {
        Some(OutputMode::Json)
    } else if name == "json-stream"@ {
        Some(OutputMode::JsonStream)
    } else if name == "tiny"@ {
        Some(OutputMode::Tiny)
    } else {
        None
    }
}

/// The name of a `--name` argument.
pub open spec fn long_name(arg: CliArg) -> Option<Seq<char>> {
    match arg {
        CliArg::Long(n) => Some(n@),
        _ => None,
    }
}

/// The output mode an argument selects, if it is an output flag.
pub open spec fn selected_output(arg: CliArg) -> Option<OutputMode> {
    match arg {
        CliArg::Long(n) => output_flag(n@),
        _ => None,
    }
}

/// Whether the argument is one of the accepted flags.
pub open spec fn known_flag(arg: CliArg) -> bool {
    match arg {
        CliArg::Long(n) => n@ == "help"@ || n@ == "version"@ || output_flag(n@) is Some || n@
            == "gpu"@ || n@ == "theme"@ || n@ == "mode"@ || n@ == "no-color"@ || n@ == "cat"@,
        _ => false,
    }
}

/// How an unexpected argument is named in its usage error.
pub open spec fn rendered_arg(arg: CliArg) -> Seq<char> {
    match arg {
        CliArg::Short(c) => seq!['-', c],
        CliArg::Long(name) => "--"@ + name@,
        CliArg::Value(value) => value@,
    }
}

/// The usage error of mutually exclusive output flags.
pub open spec fn exclusive_message() -> Seq<char> {
    "--once, --json, --json-stream, and --tiny are mutually exclusive"@
}

/// The accepted flag names are pairwise different.
proof fn lemma_flag_names_distinct()
    ensures
        "help"@ != "version"@,
        "help"@ != "once"@,
        "help"@ != "json"@,
        "help"@ != "json-stream"@,
        "help"@ != "tiny"@,
        "help"@ != "gpu"@,
        "help"@ != "theme"@,
        "help"@ != "mode"@,
        "help"@ != "no-color"@,
        "help"@ != "cat"@,
        "version"@ != "once"@,
        "version"@ != "json"@,
        "version"@ != "json-stream"@,
        "version"@ != "tiny"@,
        "version"@ != "gpu"@,
        "version"@ != "theme"@,
        "version"@ != "mode"@,
        "version"@ != "no-color"@,
        "version"@ != "cat"@,
        "once"@ != "json"@,
        "once"@ != "json-stream"@,
        "once"@ != "tiny"@,
        "once"@ != "gpu"@,
        "once"@ != "theme"@,
        "once"@ != "mode"@,
        "once"@ != "no-color"@,
        "once"@ != "cat"@,
        "json"@ != "json-stream"@,
        "json"@ != "tiny"@,
        "json"@ != "gpu"@,
        "json"@ != "theme"@,
        "json"@ != "mode"@,
        "json"@ != "no-color"@,
        "json"@ != "cat"@,
        "json-stream"@ != "tiny"@,
        "json-stream"@ != "gpu"@,
        "json-stream"@ != "theme"@,
        "json-stream"@ != "mode"@,
        "json-stream"@ != "no-color"@,
        "json-stream"@ != "cat"@,
        "tiny"@ != "gpu"@,
        "tiny"@ != "theme"@,
        "tiny"@ != "mode"@,
        "tiny"@ != "no-color"@,
        "tiny"@ != "cat"@,
        "gpu"@ != "theme"@,
        "gpu"@ != "mode"@,
        "gpu"@ != "no-color"@,
        "gpu"@ != "cat"@,
        "theme"@ != "mode"@,
        "theme"@ != "no-color"@,
        "theme"@ != "cat"@,
        "mode"@ != "no-color"@,
        "mode"@ != "cat"@,
        "no-color"@ != "cat"@,
{
    reveal_strlit("help");
    reveal_strlit("version");
    reveal_strlit("once");
    reveal_strlit("json");
    reveal_strlit("json-stream");
    reveal_strlit("tiny");
    reveal_strlit("gpu");
    reveal_strlit("theme");
    reveal_strlit("mode");
    reveal_strlit("no-color");
    reveal_strlit("cat");
    assert("help"@.len() != "version"@.len());
    assert("help"@[0] != "once"@[0]);
    assert("help"@[0] != "json"@[0]);
    assert("help"@.len() != "json-stream"@.len());
    assert("help"@[0] != "tiny"@[0]);
    assert("help"@.len() != "gpu"@.len());
    assert("help"@.len() != "theme"@.len());
    assert("help"@[0] != "mode"@[0]);
    assert("help"@.len() != "no-color"@.len());
    assert("help"@.len() != "cat"@.len());
    assert("version"@.len() != "once"@.len());
    assert("version"@.len() != "json"@.len());
    assert("version"@.len() != "json-stream"@.len());
    assert("version"@.len() != "tiny"@.len());
    assert("version"@.len() != "gpu"@.len());
    assert("version"@.len() != "theme"@.len());
    assert("version"@.len() != "mode"@.len());
    assert("version"@.len() != "no-color"@.len());
    assert("version"@.len() != "cat"@.len());
    assert("once"@[0] != "json"@[0]);
    assert("once"@.len() != "json-stream"@.len());
    assert("once"@[0] != "tiny"@[0]);
    assert("once"@.len() != "gpu"@.len());
    assert("once"@.len() != "theme"@.len());
    assert("once"@[0] != "mode"@[0]);
    assert("once"@.len() != "no-color"@.len());
    assert("once"@.len() != "cat"@.len());
    assert("json"@.len() != "json-stream"@.len());
    assert("json"@[0] != "tiny"@[0]);
    assert("json"@.len() != "gpu"@.len());
    assert("json"@.len() != "theme"@.len());
    assert("json"@[0] != "mode"@[0]);
    assert("json"@.len() != "no-color"@.len());
    assert("json"@.len() != "cat"@.len());
    assert("json-stream"@.len() != "tiny"@.len());
    assert("json-stream"@.len() != "gpu"@.len());
    assert("json-stream"@.len() != "theme"@.len());
    assert("json-stream"@.len() != "mode"@.len());
    assert("json-stream"@.len() != "no-color"@.len());
    assert("json-stream"@.len() != "cat"@.len());
    assert("tiny"@.len() != "gpu"@.len());
    assert("tiny"@.len() != "theme"@.len());
    assert("tiny"@[0] != "mode"@[0]);
    assert("tiny"@.len() != "no-color"@.len());
    assert("tiny"@.len() != "cat"@.len());
    assert("gpu"@.len() != "theme"@.len());
    assert("gpu"@.len() != "mode"@.len());
    assert("gpu"@.len() != "no-color"@.len());
    assert("gpu"@[0] != "cat"@[0]);
    assert("theme"@.len() != "mode"@.len());
    assert("theme"@.len() != "no-color"@.len());
    assert("theme"@.len() != "cat"@.len());
    assert("mode"@.len() != "no-color"@.len());
    assert("mode"@.len() != "cat"@.len());
    assert("no-color"@.len() != "cat"@.len());
}

/// The command-line parser's state: the output mode chosen so far and the
/// options gathered.
pub struct CliParser {
    output: Option<OutputMode>,
    options: CliOptions,
    accepted: Ghost<Seq<CliArg>>,
}

impl CliParser {
    /// Every accepted output flag selected the chosen output mode.
    #[verifier::type_invariant]
    spec fn outputs_agree(self) -> bool {
        forall|i: int|
            0 <= i < self.accepted@.len() && (selected_output(#[trigger] self.accepted@[i]) is Some)
                ==> self.output == selected_output(self.accepted@[i])
    }

    pub closed spec fn chosen_output(&self) -> Option<OutputMode> {
        self.output
    }

    /// The arguments accepted so far, in order.
    pub closed spec fn arguments(&self) -> Seq<CliArg> {
        self.accepted@
    }

    pub closed spec fn gathered(&self) -> CliOptions {
        self.options
    }

    /// A parser that has seen no argument.
    pub fn new() -> (p: CliParser)
        ensures
            p.chosen_output() is None,
            p.arguments().len() == 0,
            p.gathered() == (CliOptions {
                output: OutputMode::Interactive,
                gpu: None,
                theme: None,
                mode: None,
                no_color: false,
                cat: false,
            }),
    {
        CliParser {
            output: None,
            accepted: Ghost(Seq::empty()),
            options: CliOptions {
                output: OutputMode::Interactive,
                gpu: None,
                theme: None,
                mode: None,
                no_color: false,
                cat: false,
            },
        }
    }

    /// Takes one argument. `--help` and `--version` finish at once, output
    /// flags are mutually exclusive (repeating the same one is allowed),
    /// value flags ask for their value, anything unknown is a usage error.
    /// Across the whole argument list: an output flag is refused whenever
    /// any earlier accepted argument selected another output mode.
    pub fn on_arg(&mut self, arg: &CliArg) -> (r: Result<CliStep, UsageError>)
        ensures
            final(self).arguments() == (if r matches Ok(CliStep::Continue) || r matches Ok(
                CliStep::NeedValue(_),
            ) {
                old(self).arguments().push(*arg)
            } else {
                old(self).arguments()
            }),
            (selected_output(*arg) matches Some(m) && exists|i: int|
                0 <= i < old(self).arguments().len() && (selected_output(
                    #[trigger] old(self).arguments()[i],
                ) matches Some(m2) && m2 != m)) ==> (r matches Err(e) && e.0@ == exclusive_message()),
            long_name(*arg) == Some("help"@) ==> r == Ok::<CliStep, UsageError>(
                CliStep::Finished(Invocation::Help),
            ),
            long_name(*arg) == Some("version"@) ==> r == Ok::<CliStep, UsageError>(
                CliStep::Finished(Invocation::Version),
            ),
            selected_output(*arg) matches Some(mode) ==> (if old(self).chosen_output() matches Some(
                existing,
            ) && existing != mode {
                r matches Err(e) && e.0@ == exclusive_message() && final(self).chosen_output()
                    == old(self).chosen_output()
            } else {
                r == Ok::<CliStep, UsageError>(CliStep::Continue) && final(self).chosen_output()
                    == Some(mode)
            }),
            long_name(*arg) == Some("gpu"@) ==> r == Ok::<CliStep, UsageError>(
                CliStep::NeedValue(ValueFlag::Gpu),
            ),
            long_name(*arg) == Some("theme"@) ==> r == Ok::<CliStep, UsageError>(
                CliStep::NeedValue(ValueFlag::Theme),
            ),
            long_name(*arg) == Some("mode"@) ==> r == Ok::<CliStep, UsageError>(
                CliStep::NeedValue(ValueFlag::Mode),
            ),
            long_name(*arg) == Some("no-color"@) ==> r == Ok::<CliStep, UsageError>(
                CliStep::Continue,
            ) && final(self).gathered().no_color,
            !known_flag(*arg) ==> (r matches Err(e) && e.0@ == "unexpected argument: "@
                + rendered_arg(*arg)),
            selected_output(*arg) is None ==> final(self).chosen_output() == old(
                self,
            ).chosen_output(),
            final(self).gathered().gpu == old(self).gathered().gpu,
            final(self).gathered().theme == old(self).gathered().theme,
            final(self).gathered().mode == old(self).gathered().mode,
            long_name(*arg) != Some("no-color"@) ==> final(self).gathered().no_color == old(
                self,
            ).gathered().no_color,
            long_name(*arg) == Some("cat"@) ==> r == Ok::<CliStep, UsageError>(CliStep::Continue)
                && final(self).gathered().cat,
            long_name(*arg) != Some("cat"@) ==> final(self).gathered().cat == old(
                self,
            ).gathered().cat,
    {
        proof {
            lemma_flag_names_distinct();
            use_type_invariant(&*self);
        }
        if let CliArg::Long(name) = arg {
            let n = name.as_str();
            if same_text(n, "help") {
                return Ok(CliStep::Finished(Invocation::Help));
            }
            if same_text(n, "version") {
                return Ok(CliStep::Finished(Invocation::Version));
            }
            let mode = if same_text(n, "once") {
                Some(OutputMode::Once)
            } else if same_text(n, "json") {
                Some(OutputMode::Json)
            } else if same_text(n, "json-stream") {
                Some(OutputMode::JsonStream)
            } else if same_text(n, "tiny") {
                Some(OutputMode::Tiny)
            } else {
                None
            };
            if let Some(mode) = mode {
                if let Some(existing) = self.output {
                    if existing != mode {
                        return Err(UsageError(
                            "--once, --json, --json-stream, and --tiny are mutually exclusive".to_owned(),
                        ));
                    }
                }
                self.output = Some(mode);
                self.accepted = Ghost(self.accepted@.push(*arg));
                return Ok(CliStep::Continue);
            }
            if same_text(n, "gpu") {
                self.accepted = Ghost(self.accepted@.push(*arg));
                return Ok(CliStep::NeedValue(ValueFlag::Gpu));
            }
            if same_text(n, "theme") {
                self.accepted = Ghost(self.accepted@.push(*arg));
                return Ok(CliStep::NeedValue(ValueFlag::Theme));
            }
            if same_text(n, "mode") {
                self.accepted = Ghost(self.accepted@.push(*arg));
                return Ok(CliStep::NeedValue(ValueFlag::Mode));
            }
            if same_text(n, "no-color") {
                self.options.no_color = true;
                self.accepted = Ghost(self.accepted@.push(*arg));
                return Ok(CliStep::Continue);
            }
            if same_text(n, "cat") {
                self.options.cat = true;
                self.accepted = Ghost(self.accepted@.push(*arg));
                return Ok(CliStep::Continue);
            }
        }
        let mut out: Vec<char> = Vec::new();
        extend_chars(&mut out, "unexpected argument: ");
        match arg {
            CliArg::Short(c) => {
                out.push('-');
                out.push(*c);
            },
            CliArg::Long(name) => {
                extend_chars(&mut out, "--");
                extend_chars(&mut out, name.as_str());
            },
            CliArg::Value(value) => {
                extend_chars(&mut out, value.as_str());
            },
        }
        proof {
            assert(out@ =~= "unexpected argument: "@ + rendered_arg(*arg));
        }
        Err(UsageError(string_of(&out)))
    }

    /// Takes the value of a flag; `None` is a value that is not valid UTF-8.
    pub fn on_value(&mut self, flag: ValueFlag, value: Option<String>) -> (r: Result<
        (),
        UsageError,
    >)
        ensures
            value is None ==> (r matches Err(e) && e.0@ == flag.spec_flag()
                + " value is not valid UTF-8"@),
            final(self).chosen_output() == old(self).chosen_output(),
            final(self).arguments() == old(self).arguments(),
            final(self).gathered().no_color == old(self).gathered().no_color,
            final(self).gathered().cat == old(self).gathered().cat,
            r is Ok ==> value is Some,
            r is Ok && flag == ValueFlag::Gpu ==> final(self).gathered().gpu is Some,
            r is Ok && flag == ValueFlag::Theme ==> (final(self).gathered().theme matches Some(t)
                && value matches Some(v) && t.spec_name() == v@),
            r is Ok && flag == ValueFlag::Mode ==> (final(self).gathered().mode matches Some(m)
                && value matches Some(v) && m.spec_name() == v@),
            flag == ValueFlag::Gpu && value is Some ==> gpu_value_outcome(
                value->0@,
                r,
                final(self).gathered().gpu,
            ),
            flag == ValueFlag::Theme && value is Some ==> theme_value_outcome(value->0@, r),
            flag == ValueFlag::Mode && value is Some ==> mode_value_outcome(value->0@, r),
            r is Err || flag != ValueFlag::Gpu ==> final(self).gathered().gpu == old(
                self,
            ).gathered().gpu,
            r is Err || flag != ValueFlag::Theme ==> final(self).gathered().theme == old(
                self,
            ).gathered().theme,
            r is Err || flag != ValueFlag::Mode ==> final(self).gathered().mode == old(
                self,
            ).gathered().mode,
    {
        proof {
            use_type_invariant(&*self);
        }
        let text = match value {
            Some(t) => t,
            None => {
                let mut out: Vec<char> = Vec::new();
                match flag {
                    ValueFlag::Gpu => extend_chars(&mut out, "--gpu"),
                    ValueFlag::Theme => extend_chars(&mut out, "--theme"),
                    ValueFlag::Mode => extend_chars(&mut out, "--mode"),
                }
                extend_chars(&mut out, " value is not valid UTF-8");
                return Err(UsageError(string_of(&out)));
            },
        };
        match flag {
            ValueFlag::Gpu => {
                match GpuSelector::parse(text.as_str()) {
                    Ok(selector) => {
                        self.options.gpu = Some(selector);
                        Ok(())
                    },
                    Err(e) => Err(e),
                }
            },
            ValueFlag::Theme => match Theme::try_from(text) {
                Ok(t) => {
                    self.options.theme = Some(t);
                    Ok(())
                },
                Err(message) => Err(UsageError(message)),
            },
            ValueFlag::Mode => match ModePreference::try_from(text) {
                Ok(m) => {
                    self.options.mode = Some(m);
                    Ok(())
                },
                Err(message) => Err(UsageError(message)),
            },
        }
    }

    /// The invocation once every argument was taken: the chosen output mode
    /// (interactive when none) with the gathered options.
    pub fn finish(&self) -> (r: Invocation)
        ensures
            r matches Invocation::Run(o) && o.output == (match self.chosen_output() {
                Some(m) => m,
                None => OutputMode::Interactive,
            }) && o.gpu == self.gathered().gpu && o.theme == self.gathered().theme && o.mode
                == self.gathered().mode && o.no_color == self.gathered().no_color && o.cat
                == self.gathered().cat,
    {
        let mut options = self.options.clone();
        options.output = match self.output {
            Some(m) => m,
            None => OutputMode::Interactive,
        };
        Invocation::Run(options)
    }
}

} // verus!
