use gpuflo::config::{resolve, FileConfig, ModePreference, PresentationOptions, Theme};

fn defaults(file: &FileConfig) -> PresentationOptions {
    resolve(None, None, false, false, file, false, false)
}

#[test]
fn missing_file_uses_built_in_defaults() {
    assert_eq!(defaults(&FileConfig::default()), PresentationOptions::default());
}

#[test]
fn file_overrides_defaults_and_cli_overrides_file() {
    let file = FileConfig { theme: Some(Theme::Nord), mode: Some(ModePreference::Mini), no_color: None, cat: None };
    let options = defaults(&file);
    assert_eq!(options.theme, Theme::Nord);
    assert_eq!(options.mode_preference, ModePreference::Mini);
    let options = resolve(Some(Theme::Monochrome), Some(ModePreference::Compact), false, false, &file, false, false);
    assert_eq!(options.theme, Theme::Monochrome);
    assert_eq!(options.mode_preference, ModePreference::Compact);
}

#[test]
fn any_disabling_source_turns_color_off() {
    let plain = FileConfig::default();
    assert!(!resolve(None, None, false, false, &plain, true, false).color_enabled);
    assert!(resolve(None, None, false, false, &plain, false, false).color_enabled);
    let file = FileConfig { no_color: Some(true), ..FileConfig::default() };
    assert!(!defaults(&file).color_enabled);
    assert!(!resolve(None, None, true, false, &plain, false, false).color_enabled);
}

#[test]
fn cat_is_opt_in_from_either_source() {
    assert!(!defaults(&FileConfig::default()).cat_enabled);
    assert!(resolve(None, None, false, true, &FileConfig::default(), false, false).cat_enabled);
    let file = FileConfig { cat: Some(true), ..FileConfig::default() };
    assert!(defaults(&file).cat_enabled);
    assert!(resolve(None, None, false, false, &FileConfig::default(), false, true).truecolor);
}

#[test]
fn names_parse_back_and_unknown_values_are_refused() {
    for theme in [Theme::Buffalo, Theme::Nord, Theme::Monochrome] {
        assert_eq!(Theme::try_from(theme.name().to_owned()), Ok(theme));
    }
    for mode in [ModePreference::Auto, ModePreference::Mode, ModePreference::Compact, ModePreference::Mini, ModePreference::Tiny] {
        assert_eq!(ModePreference::try_from(mode.name().to_owned()), Ok(mode));
    }
    assert!(Theme::try_from("solarized".to_owned()).is_err());
    assert!(ModePreference::try_from("full".to_owned()).is_err());
    assert_eq!(Theme::Monochrome.next(), Theme::Buffalo);
    assert_eq!(ModePreference::Tiny.next(), ModePreference::Auto);
}

#[test]
fn refusals_quote_the_value_and_list_the_names() {
    assert_eq!(
        Theme::try_from("solarized".to_owned()),
        Err("unknown theme \"solarized\"; expected buffalo, nord, or monochrome".to_owned())
    );
    assert_eq!(
        ModePreference::try_from("full".to_owned()),
        Err("unknown mode \"full\"; expected auto, mode, compact, mini, or tiny".to_owned())
    );
}
