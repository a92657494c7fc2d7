use gpuflo::cli::GpuSelector;
use gpuflo::config::{ModePreference, PresentationOptions, Theme};
use gpuflo::model::{PciBdf, PhysicalGpuId};
use gpuflo::ui::format::process_column_widths;
use gpuflo::ui::layout::{self, strip_window, Rect, Surface};
use gpuflo::ui::{Action, GpuEntry, Key, UiState};

fn gpu(id: &str, index: u32, bdf: &str) -> GpuEntry {
    GpuEntry {
        id: PhysicalGpuId::new(id),
        index,
        bdf: PciBdf::parse(bdf).expect("bdf"),
    }
}

/// The two-GPU model: a healthy `gpu-a` and a sleepy `gpu-b`.
fn model() -> Vec<GpuEntry> {
    vec![gpu("gpu-a", 0, "0000:03:00.0"), gpu("gpu-b", 1, "0000:c3:00.0")]
}

fn state_with_model(color_enabled: bool) -> UiState {
    let mut state = UiState::new(
        PresentationOptions {
            theme: Theme::Buffalo,
            mode_preference: ModePreference::Auto,
            color_enabled,
            truecolor: true,
            cat_enabled: false,
        },
        None,
    );
    let _ = state.adopt_model(model());
    state
}

/// A key press on the default 120×40 terminal.
fn press(state: &mut UiState, key: Key) -> Action {
    state.handle_key_in_area(key, 120, 40)
}

fn selected(state: &UiState) -> String {
    state.selected().expect("selected").as_str().to_owned()
}

fn effective(preference: ModePreference, area: Rect) -> Surface {
    layout::effective(preference, area.width, area.height)
}

#[test]
fn forced_surface_falls_back_to_richest_fitting() {
    let small = Rect::new(0, 0, 70, 20); // fits compact, not mode
    assert_eq!(effective(ModePreference::Mode, small), Surface::Compact);
    assert_eq!(effective(ModePreference::Tiny, small), Surface::Tiny);
    let large = Rect::new(0, 0, 120, 40);
    assert_eq!(effective(ModePreference::Auto, large), Surface::Mode);
    assert_eq!(effective(ModePreference::Mini, large), Surface::Mini);
}

#[test]
fn selection_tracks_identity_and_restores_returning_gpu() {
    let mut state = state_with_model(true);
    let _ = press(&mut state, Key::Right);
    assert_eq!(selected(&state), "gpu-b");

    // gpu-b disappears: fall back to the nearest survivor.
    let mut shrunk = model();
    shrunk.remove(1);
    let _ = state.adopt_model(shrunk);
    assert_eq!(selected(&state), "gpu-a");

    // gpu-b returns: the remembered selection is restored.
    let _ = state.adopt_model(model());
    assert_eq!(selected(&state), "gpu-b");
}

#[test]
fn initial_gpu_selector_resolves_against_first_model() {
    let mut state = UiState::new(PresentationOptions::default(), Some(GpuSelector::Index(1)));
    let _ = state.adopt_model(model());
    assert_eq!(selected(&state), "gpu-b");

    let mut state = UiState::new(
        PresentationOptions::default(),
        Some(GpuSelector::Id("gpu-a".to_owned())),
    );
    let _ = state.adopt_model(model());
    assert_eq!(selected(&state), "gpu-a");
}

#[test]
fn bdf_selector_resolves_and_unmatched_selector_falls_to_first() {
    let mut state = UiState::new(
        PresentationOptions::default(),
        Some(GpuSelector::Bdf(PciBdf::parse("0000:c3:00.0").unwrap())),
    );
    let _ = state.adopt_model(model());
    assert_eq!(selected(&state), "gpu-b");
    let mut state = UiState::new(PresentationOptions::default(), Some(GpuSelector::Index(9)));
    let _ = state.adopt_model(model());
    assert_eq!(selected(&state), "gpu-a");
}

#[test]
fn process_key_scopes_to_the_selected_gpu() {
    let mut state = state_with_model(true);
    assert_eq!(
        press(&mut state, Key::Char('p')),
        Action::SetProcessScope(Some(PhysicalGpuId::new("gpu-a")))
    );
    // Selection change while open retargets the scope.
    assert_eq!(
        press(&mut state, Key::Right),
        Action::SetProcessScope(Some(PhysicalGpuId::new("gpu-b")))
    );
    assert_eq!(press(&mut state, Key::Esc), Action::SetProcessScope(None));
}

#[test]
fn keys_cycle_session_presentation_and_quit() {
    let mut state = state_with_model(true);
    assert_eq!(press(&mut state, Key::Char('t')), Action::Nothing);
    assert_eq!(state.theme(), Theme::Nord);
    let before = layout::effective(state.mode_preference(), 120, 40);
    assert_eq!(press(&mut state, Key::Char('m')), Action::Nothing);
    assert_eq!(state.mode_preference(), ModePreference::Compact);
    assert_ne!(before, layout::effective(state.mode_preference(), 120, 40));
    assert_eq!(press(&mut state, Key::Char('q')), Action::Quit);
    assert_eq!(press(&mut state, Key::Esc), Action::Quit);
}

#[test]
fn escape_closes_topmost_modal_before_quitting() {
    let mut state = state_with_model(true);
    assert_eq!(press(&mut state, Key::Char('d')), Action::Nothing);
    assert_eq!(
        press(&mut state, Key::Char('p')),
        Action::SetProcessScope(Some(PhysicalGpuId::new("gpu-a")))
    );
    assert_eq!(press(&mut state, Key::Char('?')), Action::Nothing);
    assert_eq!(press(&mut state, Key::Esc), Action::Nothing);
    assert!(!state.show_help() && state.show_processes() && state.show_detail());
    assert_eq!(press(&mut state, Key::Esc), Action::SetProcessScope(None));
    assert!(!state.show_processes() && state.show_detail());
    assert_eq!(press(&mut state, Key::Esc), Action::Nothing);
    assert!(!state.show_detail());
    assert_eq!(press(&mut state, Key::Esc), Action::Quit);
}

#[test]
fn process_columns_share_available_width_evenly() {
    let widths = process_column_widths(106);
    assert_eq!(widths.iter().sum::<usize>() + 12, 106);
    let data = &widths[2..];
    assert!(data.iter().max().unwrap() - data.iter().min().unwrap() <= 1);
    assert_eq!(widths[0], 7);
    assert_eq!(widths[1], 17);
}

#[test]
fn selection_wraps_in_both_directions() {
    let mut state = state_with_model(true);
    assert_eq!(press(&mut state, Key::Left), Action::Nothing);
    assert_eq!(selected(&state), "gpu-b");
    assert_eq!(press(&mut state, Key::Right), Action::Nothing);
    assert_eq!(selected(&state), "gpu-a");
    assert_eq!(state.selected_index(), Some(0));
}

#[test]
fn theme_cycles_back_to_the_start() {
    let mut state = state_with_model(false);
    let start = state.theme();
    let mut seen = 0;
    loop {
        let _ = press(&mut state, Key::Char('t'));
        seen += 1;
        if state.theme() == start {
            break;
        }
        assert!(seen < 20);
    }
    assert!(!state.color_enabled());
}

#[test]
fn empty_model_selects_nothing() {
    let mut state = state_with_model(true);
    let _ = state.adopt_model(Vec::new());
    assert!(state.selected_index().is_none());
}

#[test]
fn strip_window_opens_before_the_selection_and_grows_while_labels_fit() {
    assert_eq!(strip_window(&vec![10, 10, 10, 10], 2, 25), (1, 3));
    assert_eq!(strip_window(&vec![10, 10, 10, 10], 2, 100), (1, 4));
    assert_eq!(strip_window(&vec![30, 5], 0, 10), (0, 1));
    assert_eq!(strip_window(&vec![30, 40, 5], 1, 10), (0, 2));
}

#[test]
fn left_right_and_vim_keys_step_the_selection_with_wraparound() {
    let mut state = state_with_model(true);
    assert_eq!(selected(&state), "gpu-a");
    assert_eq!(press(&mut state, Key::Left), Action::Nothing);
    assert_eq!(selected(&state), "gpu-b");
    assert_eq!(press(&mut state, Key::Char('l')), Action::Nothing);
    assert_eq!(selected(&state), "gpu-a");
    assert_eq!(press(&mut state, Key::Char('h')), Action::Nothing);
    assert_eq!(selected(&state), "gpu-b");
    assert_eq!(press(&mut state, Key::Right), Action::Nothing);
    assert_eq!(selected(&state), "gpu-a");
    assert_eq!(press(&mut state, Key::Char('z')), Action::Nothing);
    assert_eq!(press(&mut state, Key::Other), Action::Nothing);
    assert_eq!(selected(&state), "gpu-a");
}
