//! Presentation configuration: built-in defaults, the closed TOML schema's
//! values, and the one precedence merge — built-in defaults, then TOML
//! overrides, then CLI flags, with any non-empty `NO_COLOR` as an
//! unconditional final color disable.
use vstd::prelude::*;
use crate::text::{same_text, extend_chars, string_of};

verus! {

/// `format!("{s:?}")`: the Rust debug rendering of a string (quoted and
/// escaped).
pub uninterp spec fn debug_quoted(s: Seq<char>) -> Seq<char>;

/// Renders a string with `str`'s `Debug` formatting (`format!("{s:?}")`):
/// the result is the named rendering of the argument.
#[verifier::external_body]
pub(crate) fn debug_quote(s: &str) -> (r: String)
    ensures
        r@ == debug_quoted(s@),
{
    format!("{s:?}")
}

/// Built-in semantic palette selection.
#[derive(Debug, Clone, Copy, PartialEq, Eq, Structural)]
pub enum Theme {
    /// Default: warm cream, rust, amber, restrained fault red.
    Buffalo,
    /// Restrained cool alternative with the same semantic roles.
    Nord,
    /// Neutral palette for minimal-color terminals.
    Monochrome,
}

impl Theme {
    pub open spec fn spec_name(self) -> Seq<char> {
        match self {
            Theme::Buffalo => "buffalo"@,
            Theme::Nord => "nord"@,
            Theme::Monochrome => "monochrome"@,
        }
    }

    /// The theme's configuration name.
    pub fn name(self) -> (r: &'static str)
        ensures
            r@ == self.spec_name(),
    {
        match self {
            Theme::Buffalo => "buffalo",
            Theme::Nord => "nord",
            Theme::Monochrome => "monochrome",
        }
    }

    pub open spec fn spec_next(self) -> Theme {
        match self {
            Theme::Buffalo => Theme::Nord,
            Theme::Nord => Theme::Monochrome,
            Theme::Monochrome => Theme::Buffalo,
        }
    }

    /// Cycles to the next built-in theme (session `t` key).
    pub fn next(self) -> (r: Theme)
        ensures
            r == self.spec_next(),
    {
        match self {
            Theme::Buffalo => Theme::Nord,
            Theme::Nord => Theme::Monochrome,
            Theme::Monochrome => Theme::Buffalo,
        }
    }

    /// Parses a configuration name; anything else is rejected with the
    /// accepted names.
    pub fn try_from(value: String) -> (r: Result<Theme, String>)
        ensures
            (r is Ok) == is_theme_name(value@),
            r matches Ok(t) ==> t.spec_name() == value@,
            (value@ == "buffalo"@ || value@ == "nord"@ || value@ == "monochrome"@) ==> r is Ok,
            r matches Err(message) ==> message@ == "unknown theme "@ + debug_quoted(value@)
                + "; expected buffalo, nord, or monochrome"@,
    {
        if same_text(value.as_str(), "buffalo") {
            Ok(Theme::Buffalo)
        } else if same_text(value.as_str(), "nord") {
            Ok(Theme::Nord)
        } else if same_text(value.as_str(), "monochrome") {
            Ok(Theme::Monochrome)
        } else {
            let mut out: Vec<char> = Vec::new();
            extend_chars(&mut out, "unknown theme ");
            extend_chars(&mut out, debug_quote(value.as_str()).as_str());
            extend_chars(&mut out, "; expected buffalo, nord, or monochrome");
            Err(string_of(&out))
        }
    }
}

/// A built-in theme's configuration name.
pub open spec fn is_theme_name(v: Seq<char>) -> bool {
    v == "buffalo"@ || v == "nord"@ || v == "monochrome"@
}

/// A responsive-surface preference's configuration name.
pub open spec fn is_mode_name(v: Seq<char>) -> bool {
    v == "auto"@ || v == "mode"@ || v == "compact"@ || v == "mini"@ || v == "tiny"@
}

/// Cycling themes returns to the start after three steps.
pub proof fn lemma_theme_cycle(t: Theme)
    ensures
        t.spec_next().spec_next().spec_next() == t,
        t.spec_next() != t,
{
}

/// Preferred responsive surface. `Mode` names the full instrument cluster.
#[derive(Debug, Clone, Copy, PartialEq, Eq, Structural)]
pub enum ModePreference {
    /// Richest surface that fits the current terminal.
    Auto,
    /// The full selected-GPU instrument cluster.
    Mode,
    Compact,
    Mini,
    Tiny,
}

impl ModePreference {
    pub open spec fn spec_name(self) -> Seq<char> {
        match self {
            ModePreference::Auto => "auto"@,
            ModePreference::Mode => "mode"@,
            ModePreference::Compact => "compact"@,
            ModePreference::Mini => "mini"@,
            ModePreference::Tiny => "tiny"@,
        }
    }

    /// The preference's configuration name.
    pub fn name(self) -> (r: &'static str)
        ensures
            r@ == self.spec_name(),
    {
        match self {
            ModePreference::Auto => "auto",
            ModePreference::Mode => "mode",
            ModePreference::Compact => "compact",
            ModePreference::Mini => "mini",
            ModePreference::Tiny => "tiny",
        }
    }

    pub open spec fn spec_next(self) -> ModePreference {
        match self {
            ModePreference::Auto => ModePreference::Mode,
            ModePreference::Mode => ModePreference::Compact,
            ModePreference::Compact => ModePreference::Mini,
            ModePreference::Mini => ModePreference::Tiny,
            ModePreference::Tiny => ModePreference::Auto,
        }
    }

    /// Cycles to the next preference (session `m` key).
    pub fn next(self) -> (r: ModePreference)
        ensures
            r == self.spec_next(),
    {
        match self {
            ModePreference::Auto => ModePreference::Mode,
            ModePreference::Mode => ModePreference::Compact,
            ModePreference::Compact => ModePreference::Mini,
            ModePreference::Mini => ModePreference::Tiny,
            ModePreference::Tiny => ModePreference::Auto,
        }
    }

    /// Parses a configuration name; anything else is rejected with the
    /// accepted names.
    pub fn try_from(value: String) -> (r: Result<ModePreference, String>)
        ensures
            (r is Ok) == is_mode_name(value@),
            r matches Ok(m) ==> m.spec_name() == value@,
            (value@ == "auto"@ || value@ == "mode"@ || value@ == "compact"@ || value@ == "mini"@
                || value@ == "tiny"@) ==> r is Ok,
            r matches Err(message) ==> message@ == "unknown mode "@ + debug_quoted(value@)
                + "; expected auto, mode, compact, mini, or tiny"@,
    {
        if same_text(value.as_str(), "auto") {
            Ok(ModePreference::Auto)
        } else if same_text(value.as_str(), "mode") {
            Ok(ModePreference::Mode)
        } else if same_text(value.as_str(), "compact") {
            Ok(ModePreference::Compact)
        } else if same_text(value.as_str(), "mini") {
            Ok(ModePreference::Mini)
        } else if same_text(value.as_str(), "tiny") {
            Ok(ModePreference::Tiny)
        } else {
            let mut out: Vec<char> = Vec::new();
            extend_chars(&mut out, "unknown mode ");
            extend_chars(&mut out, debug_quote(value.as_str()).as_str());
            extend_chars(&mut out, "; expected auto, mode, compact, mini, or tiny");
            Err(string_of(&out))
        }
    }
}

/// The values of the closed sparse TOML schema (`theme`, `mode`,
/// `no_color`, `cat`); absent keys are `None`.
#[derive(Debug, Clone, Copy, PartialEq, Eq, Default)]
pub struct FileConfig {
    pub theme: Option<Theme>,
    pub mode: Option<ModePreference>,
    pub no_color: Option<bool>,
    pub cat: Option<bool>,
}

/// Resolved presentation options for the interactive surface.
#[derive(Debug, Clone, Copy, PartialEq, Eq, Structural)]
pub struct PresentationOptions {
    pub theme: Theme,
    pub mode_preference: ModePreference,
    pub color_enabled: bool,
    pub truecolor: bool,
    /// Opt-in sleeping cat on a warm GPU.
    pub cat_enabled: bool,
}

impl Default for PresentationOptions {
    /// Buffalo, automatic mode, color on, no truecolor, no cat.
    fn default() -> (r: PresentationOptions)
        ensures
            r == (PresentationOptions {
                theme: Theme::Buffalo,
                mode_preference: ModePreference::Auto,
                color_enabled: true,
                truecolor: false,
                cat_enabled: false,
            }),
    {
        PresentationOptions {
            theme: Theme::Buffalo,
            mode_preference: ModePreference::Auto,
            color_enabled: true,
            truecolor: false,
            cat_enabled: false,
        }
    }
}

/// The first present value of a precedence chain.
pub open spec fn first_of<T>(high: Option<T>, low: Option<T>, fallback: T) -> T {
    match high {
        Some(v) => v,
        None => match low {
            Some(v) => v,
            None => fallback,
        },
    }
}

/// Merges presentation options: CLI over TOML over built-in defaults; color
/// is off when `NO_COLOR` is set non-empty, the CLI asks, or the file asks;
/// the cat is on when the CLI or the file asks.
pub fn resolve(
    cli_theme: Option<Theme>,
    cli_mode: Option<ModePreference>,
    cli_no_color: bool,
    cli_cat: bool,
    file: &FileConfig,
    no_color_env: bool,
    truecolor: bool,
) -> (r: PresentationOptions)
    ensures
        r.theme == first_of(cli_theme, file.theme, Theme::Buffalo),
        r.mode_preference == first_of(cli_mode, file.mode, ModePreference::Auto),
        r.color_enabled == !(no_color_env || cli_no_color || file.no_color == Some(true)),
        r.truecolor == truecolor,
        r.cat_enabled == (cli_cat || file.cat == Some(true)),
{
    let theme = match cli_theme {
        Some(t) => t,
        None => match file.theme {
            Some(t) => t,
            None => Theme::Buffalo,
        },
    };
    let mode_preference = match cli_mode {
        Some(m) => m,
        None => match file.mode {
            Some(m) => m,
            None => ModePreference::Auto,
        },
    };
    let file_no_color = match file.no_color {
        Some(b) => b,
        None => false,
    };
    let disabled = no_color_env || cli_no_color || file_no_color;
    let file_cat = match file.cat {
        Some(b) => b,
        None => false,
    };
    PresentationOptions {
        theme,
        mode_preference,
        color_enabled: !disabled,
        truecolor,
        cat_enabled: cli_cat || file_cat,
    }
}

/// Precedence: an explicit CLI choice always wins, and `NO_COLOR` disables
/// color whatever the file or flags say.
pub proof fn lemma_cli_wins(
    cli: Theme,
    file: Option<Theme>,
    cli_mode: ModePreference,
    file_mode: Option<ModePreference>,
)
    ensures
        first_of(Some(cli), file, Theme::Buffalo) == cli,
        first_of(Some(cli_mode), file_mode, ModePreference::Auto) == cli_mode,
{
}

} // verus!
