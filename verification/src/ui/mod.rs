//! Interactive-surface decisions: responsive layout, presentation text, the
//! decorative cat's placement, and the session's selection and key state.
//!
//! Selection tracks the stable physical GPU identity, never a display
//! position; a GPU that disappears is remembered and restored when it
//! returns.
use vstd::prelude::*;
use crate::cli::GpuSelector;
use crate::config::{ModePreference, PresentationOptions, Theme};
use crate::model::{PciBdf, PhysicalGpuId};
use crate::ui::layout::{Surface, effective, effective_spec};

pub mod cat;
pub mod detail;
pub mod format;
pub mod layout;

verus! {

/// One physical GPU of an adopted model, as selection sees it.
#[derive(Debug)]
pub struct GpuEntry {
    pub id: PhysicalGpuId,
    /// Ephemeral display index.
    pub index: u32,
    pub bdf: PciBdf,
}

/// A key press, as the input map distinguishes keys.
#[derive(Debug, Clone, Copy, PartialEq, Eq, Structural)]
pub enum Key {
    Char(char),
    Esc,
    Left,
    Right,
    Other,
}

/// What a handled key asks the render loop to do beyond changing session
/// state.
#[derive(Debug, PartialEq, Eq)]
pub enum Action {
    Nothing,
    Quit,
    /// Retarget the process overlay to this GPU (or close its scope).
    SetProcessScope(Option<PhysicalGpuId>),
}

/// The identity text of an optional GPU id.
pub open spec fn id_view(o: Option<PhysicalGpuId>) -> Option<Seq<char>> {
    match o {
        Some(i) => Some(i@),
        None => None,
    }
}

/// Whether the selector names this GPU: index against the display index,
/// BDF against the PCI address, id against the stable id.
pub open spec fn selects(selector: GpuSelector, gpu: GpuEntry) -> bool {
    match selector {
        GpuSelector::Index(i) => gpu.index == i,
        GpuSelector::Bdf(b) => gpu.bdf@ == b@,
        GpuSelector::Id(s) => gpu.id@ == s@,
    }
}

/// The first GPU the selector names.
pub open spec fn resolved(selector: GpuSelector, gpus: Seq<GpuEntry>) -> Option<Seq<char>>
    decreases gpus.len(),
{
    if gpus.len() == 0 {
        None
    } else if selects(selector, gpus[0]) {
        Some(gpus[0].id@)
    } else {
        resolved(selector, gpus.drop_first())
    }
}

/// A resolved selector names one of the GPUs.
pub proof fn lemma_resolved_names_a_gpu(selector: GpuSelector, gpus: Seq<GpuEntry>)
    ensures
        resolved(selector, gpus) matches Some(id) ==> exists|j: int|
            0 <= j < gpus.len() && (#[trigger] gpus[j]).id@ == id,
    decreases gpus.len(),
{
    if gpus.len() > 0 && !selects(selector, gpus[0]) {
        lemma_resolved_names_a_gpu(selector, gpus.drop_first());
        if let Some(id) = resolved(selector, gpus) {
            let j = choose|j: int|
                0 <= j < gpus.drop_first().len() && (#[trigger] gpus.drop_first()[j]).id@ == id;
            assert(gpus[j + 1] == gpus.drop_first()[j]);
        }
    }
}

/// The display position of an identity, if present.
pub open spec fn position_of(gpus: Seq<GpuEntry>, id: Seq<char>) -> Option<int> {
    if exists|i: int| 0 <= i < gpus.len() && #[trigger] gpus[i].id@ == id {
        Some(
            choose|i: int|
                0 <= i < gpus.len() && #[trigger] gpus[i].id@ == id && forall|j: int|
                    0 <= j < i ==> #[trigger] gpus[j].id@ != id,
        )
    } else {
        None
    }
}

/// Whether an optional identity names one of the GPUs.
pub open spec fn present(id: Option<Seq<char>>, gpus: Seq<GpuEntry>) -> bool {
    match id {
        Some(i) => position_of(gpus, i) is Some,
        None => false,
    }
}

/// Resolves `--gpu` against a model's GPUs.
pub fn resolve_selector(selector: &GpuSelector, gpus: &Vec<GpuEntry>) -> (r: Option<PhysicalGpuId>)
    ensures
        id_view(r) == resolved(*selector, gpus@),
{
    let mut i: usize = 0;
    proof {
        assert(gpus@.skip(0) =~= gpus@);
    }
    while i < gpus.len()
        invariant
            i <= gpus@.len(),
            resolved(*selector, gpus@) == resolved(*selector, gpus@.skip(i as int)),
        decreases gpus.len() - i,
    {
        let gpu = &gpus[i];
        let hit = match selector {
            GpuSelector::Index(index) => gpu.index == *index,
            GpuSelector::Bdf(bdf) => gpu.bdf.same(bdf),
            GpuSelector::Id(id) => crate::text::same_text(gpu.id.as_str(), id.as_str()),
        };
        proof {
            assert(gpus@.skip(i as int)[0] == gpus@[i as int]);
            assert(gpus@.skip(i as int).drop_first() =~= gpus@.skip(i + 1));
        }
        if hit {
            return Some(gpu.id.clone());
        }
        i = i + 1;
    }
    proof {
        assert(gpus@.skip(i as int).len() == 0);
    }
    None
}

fn find_position(gpus: &Vec<GpuEntry>, id: &PhysicalGpuId) -> (r: Option<usize>)
    ensures
        match r {
            Some(p) => position_of(gpus@, id@) == Some(p as int) && p < gpus@.len() && gpus@[p as int].id@
                == id@,
            None => position_of(gpus@, id@) is None,
        },
{
    let mut i: usize = 0;
    while i < gpus.len()
        invariant
            i <= gpus@.len(),
            forall|j: int| 0 <= j < i ==> #[trigger] gpus@[j].id@ != id@,
        decreases gpus.len() - i,
    {
        if gpus[i].id.same(id) {
            proof {
                let k = choose|k: int|
                    0 <= k < gpus@.len() && #[trigger] gpus@[k].id@ == id@ && forall|j: int|
                        0 <= j < k ==> #[trigger] gpus@[j].id@ != id@;
                if k < i {
                    assert(gpus@[k].id@ != id@);
                } else if k > i {
                    assert(gpus@[i as int].id@ != id@);
                }
            }
            return Some(i);
        }
        i = i + 1;
    }
    None
}

/// The selection after a pending `--gpu` selector is resolved: its GPU, or
/// the first GPU when it names none.
pub open spec fn after_pending(
    selected: Option<Seq<char>>,
    pending: Option<GpuSelector>,
    gpus: Seq<GpuEntry>,
) -> Option<Seq<char>> {
    match pending {
        Some(sel) => match resolved(sel, gpus) {
            Some(id) => Some(id),
            None => Some(gpus[0].id@),
        },
        None => selected,
    }
}

/// Session presentation state: everything the user changes with keys, and
/// the identity-stable selection over the last adopted model.
pub struct UiState {
    theme: Theme,
    mode_preference: ModePreference,
    color_enabled: bool,
    truecolor: bool,
    /// Opt-in: show a sleeping ASCII cat when the selected GPU is warm.
    cat_enabled: bool,
    /// The GPUs of the last adopted model, in display order.
    gpus: Vec<GpuEntry>,
    has_model: bool,
    selected: Option<PhysicalGpuId>,
    /// Display position of the selection in the last adopted model.
    selected_position: usize,
    /// A selected GPU that disappeared; restored when it returns.
    remembered: Option<PhysicalGpuId>,
    /// `--gpu` selector, resolved against the first non-empty model.
    pending_selector: Option<GpuSelector>,
    show_processes: bool,
    show_detail: bool,
    show_help: bool,
}

impl UiState {
    pub closed spec fn spec_theme(&self) -> Theme {
        self.theme
    }

    pub fn theme(&self) -> (r: Theme)
        ensures
            r == self.spec_theme(),
    {
        self.theme
    }

    pub closed spec fn spec_mode_preference(&self) -> ModePreference {
        self.mode_preference
    }

    pub fn mode_preference(&self) -> (r: ModePreference)
        ensures
            r == self.spec_mode_preference(),
    {
        self.mode_preference
    }

    pub closed spec fn spec_color_enabled(&self) -> bool {
        self.color_enabled
    }

    pub fn color_enabled(&self) -> (r: bool)
        ensures
            r == self.spec_color_enabled(),
    {
        self.color_enabled
    }

    pub closed spec fn spec_truecolor(&self) -> bool {
        self.truecolor
    }

    pub fn truecolor(&self) -> (r: bool)
        ensures
            r == self.spec_truecolor(),
    {
        self.truecolor
    }

    pub closed spec fn spec_cat_enabled(&self) -> bool {
        self.cat_enabled
    }

    pub fn cat_enabled(&self) -> (r: bool)
        ensures
            r == self.spec_cat_enabled(),
    {
        self.cat_enabled
    }

    pub closed spec fn spec_show_processes(&self) -> bool {
        self.show_processes
    }

    pub fn show_processes(&self) -> (r: bool)
        ensures
            r == self.spec_show_processes(),
    {
        self.show_processes
    }

    pub closed spec fn spec_show_detail(&self) -> bool {
        self.show_detail
    }

    pub fn show_detail(&self) -> (r: bool)
        ensures
            r == self.spec_show_detail(),
    {
        self.show_detail
    }

    pub closed spec fn spec_show_help(&self) -> bool {
        self.show_help
    }

    pub fn show_help(&self) -> (r: bool)
        ensures
            r == self.spec_show_help(),
    {
        self.show_help
    }

    pub closed spec fn spec_gpus(&self) -> Seq<GpuEntry> {
        self.gpus@
    }

    pub closed spec fn spec_has_model(&self) -> bool {
        self.has_model
    }

    pub closed spec fn spec_selected(&self) -> Option<Seq<char>> {
        id_view(self.selected)
    }

    /// The selected GPU's identity, if any.
    pub fn selected(&self) -> (r: Option<PhysicalGpuId>)
        ensures
            id_view(r) == self.spec_selected(),
    {
        before_clone(&self.selected)
    }

    pub closed spec fn spec_position(&self) -> nat {
        self.selected_position as nat
    }

    pub closed spec fn spec_remembered(&self) -> Option<Seq<char>> {
        id_view(self.remembered)
    }

    pub closed spec fn spec_pending(&self) -> Option<GpuSelector> {
        self.pending_selector
    }

    /// A fresh session from resolved presentation options and the optional
    /// `--gpu` selector.
    pub fn new(presentation: PresentationOptions, initial_gpu: Option<GpuSelector>) -> (s: UiState)
        ensures
            s.spec_theme() == presentation.theme,
            s.spec_mode_preference() == presentation.mode_preference,
            s.spec_color_enabled() == presentation.color_enabled,
            s.spec_truecolor() == presentation.truecolor,
            s.spec_cat_enabled() == presentation.cat_enabled,
            !s.spec_has_model(),
            s.spec_gpus().len() == 0,
            s.spec_selected() is None,
            s.spec_remembered() is None,
            s.spec_position() == 0,
            s.spec_pending() == initial_gpu,
            !s.spec_show_processes() && !s.spec_show_detail() && !s.spec_show_help(),
    {
        UiState {
            theme: presentation.theme,
            mode_preference: presentation.mode_preference,
            color_enabled: presentation.color_enabled,
            truecolor: presentation.truecolor,
            cat_enabled: presentation.cat_enabled,
            gpus: Vec::new(),
            has_model: false,
            selected: None,
            selected_position: 0,
            remembered: None,
            pending_selector: initial_gpu,
            show_processes: false,
            show_detail: false,
            show_help: false,
        }
    }

    /// Adopts the GPUs of a fresh model, keeping the selection on the same
    /// identity. With no GPUs the selection is remembered and cleared; a
    /// pending `--gpu` selector is resolved (first GPU when it names none);
    /// a remembered GPU that returned wins; a selection that disappeared is
    /// remembered and falls back to the nearest survivor by display order.
    /// Returns the new process scope when the open overlay must retarget.
    pub fn adopt_model(&mut self, gpus: Vec<GpuEntry>) -> (scope: Option<Option<PhysicalGpuId>>)
        ensures
            final(self).spec_has_model(),
            final(self).spec_gpus() == gpus@,
            final(self).spec_theme() == old(self).spec_theme(),
            final(self).spec_mode_preference() == old(self).spec_mode_preference(),
            final(self).spec_show_processes() == old(self).spec_show_processes(),
            final(self).spec_show_detail() == old(self).spec_show_detail(),
            final(self).spec_show_help() == old(self).spec_show_help(),
            gpus@.len() == 0 ==> {
                &&& final(self).spec_selected() is None
                &&& final(self).spec_pending() == old(self).spec_pending()
                &&& final(self).spec_position() == old(self).spec_position()
                &&& final(self).spec_remembered() == (if old(self).spec_selected() is Some
                    && old(self).spec_remembered() is None {
                    old(self).spec_selected()
                } else {
                    old(self).spec_remembered()
                })
            },
            gpus@.len() > 0 ==> {
                let s1 = after_pending(old(self).spec_selected(), old(self).spec_pending(), gpus@);
                let returned = present(old(self).spec_remembered(), gpus@);
                let s2 = if returned {
                    old(self).spec_remembered()
                } else {
                    s1
                };
                let rem2 = if returned {
                    None
                } else {
                    old(self).spec_remembered()
                };
                &&& final(self).spec_pending() is None
                &&& final(self).spec_position() < gpus@.len()
                &&& final(self).spec_selected() == Some(
                    gpus@[final(self).spec_position() as int].id@,
                )
                &&& present(s2, gpus@) ==> {
                    &&& final(self).spec_selected() == s2
                    &&& position_of(gpus@, s2->Some_0) == Some(final(self).spec_position() as int)
                    &&& final(self).spec_remembered() == rem2
                }
                &&& !present(s2, gpus@) ==> {
                    let p = if old(self).spec_position() < gpus@.len() - 1 {
                        old(self).spec_position() as int
                    } else {
                        gpus@.len() - 1
                    };
                    &&& final(self).spec_position() == p
                    &&& final(self).spec_remembered() == (if rem2 is None {
                        s2
                    } else {
                        rem2
                    })
                }
            },
            old(self).spec_show_processes() && final(self).spec_selected() != old(self).spec_selected()
                ==> (scope matches Some(s) && id_view(s) == final(self).spec_selected()),
            !(old(self).spec_show_processes() && final(self).spec_selected() != old(self).spec_selected()) ==> scope is None,
    {
        let before = before_clone(&self.selected);
        if gpus.len() == 0 {
            if self.selected.is_some() && self.remembered.is_none() {
                self.remembered = before_clone(&self.selected);
            }
            self.selected = None;
        } else {
            self.apply_pending(&gpus);
            self.restore_remembered(&gpus);
            self.settle(&gpus);
        }
        self.gpus = gpus;
        self.has_model = true;
        let changed = match (&self.selected, &before) {
            (Some(a), Some(b)) => !a.same(b),
            (None, None) => false,
            _ => true,
        };
        if self.show_processes && changed {
            Some(before_clone(&self.selected))
        } else {
            None
        }
    }

    /// Resolves a pending `--gpu` selector against a non-empty model.
    fn apply_pending(&mut self, gpus: &Vec<GpuEntry>)
        requires
            gpus@.len() > 0,
        ensures
            final(self).spec_selected() == after_pending(
                old(self).spec_selected(),
                old(self).spec_pending(),
                gpus@,
            ),
            final(self).spec_pending() is None,
            final(self).spec_remembered() == old(self).spec_remembered(),
            final(self).spec_position() == old(self).spec_position(),
            final(self).spec_show_processes() == old(self).spec_show_processes(),
            final(self).spec_show_detail() == old(self).spec_show_detail(),
            final(self).spec_show_help() == old(self).spec_show_help(),
            final(self).spec_theme() == old(self).spec_theme(),
            final(self).spec_mode_preference() == old(self).spec_mode_preference(),
    {
        let pending = self.pending_selector.take();
        if let Some(selector) = pending {
            self.selected = match resolve_selector(&selector, gpus) {
                Some(id) => Some(id),
                None => Some(gpus[0].id.clone()),
            };
        }
    }

    /// A remembered GPU that returned wins over any fallback.
    fn restore_remembered(&mut self, gpus: &Vec<GpuEntry>)
        ensures
            present(old(self).spec_remembered(), gpus@) ==> (
            final(self).spec_selected() == old(self).spec_remembered() && final(self).spec_remembered() is None),
            !present(old(self).spec_remembered(), gpus@) ==> (
            final(self).spec_selected() == old(self).spec_selected() && final(self).spec_remembered() == old(self).spec_remembered()),
            final(self).spec_pending() == old(self).spec_pending(),
            final(self).spec_position() == old(self).spec_position(),
            final(self).spec_show_processes() == old(self).spec_show_processes(),
            final(self).spec_show_detail() == old(self).spec_show_detail(),
            final(self).spec_show_help() == old(self).spec_show_help(),
            final(self).spec_theme() == old(self).spec_theme(),
            final(self).spec_mode_preference() == old(self).spec_mode_preference(),
    {
        let mut returned = false;
        if let Some(remembered) = &self.remembered {
            if find_position(gpus, remembered).is_some() {
                returned = true;
            }
        }
        if returned {
            self.selected = before_clone(&self.remembered);
            self.remembered = None;
        }
    }

    /// Records the selection's display position, or remembers a vanished
    /// selection and falls back to the nearest survivor.
    fn settle(&mut self, gpus: &Vec<GpuEntry>)
        requires
            gpus@.len() > 0,
        ensures
            final(self).spec_position() < gpus@.len(),
            final(self).spec_selected() == Some(gpus@[final(self).spec_position() as int].id@),
            present(old(self).spec_selected(), gpus@) ==> {
                &&& final(self).spec_selected() == old(self).spec_selected()
                &&& position_of(gpus@, old(self).spec_selected()->Some_0) == Some(
                    final(self).spec_position() as int,
                )
                &&& final(self).spec_remembered() == old(self).spec_remembered()
            },
            !present(old(self).spec_selected(), gpus@) ==> {
                &&& final(self).spec_position() == (if old(self).spec_position() < gpus@.len() - 1 {
                    old(self).spec_position() as int
                } else {
                    gpus@.len() - 1
                })
                &&& final(self).spec_remembered() == (if old(self).spec_remembered() is None {
                    old(self).spec_selected()
                } else {
                    old(self).spec_remembered()
                })
            },
            final(self).spec_pending() == old(self).spec_pending(),
            final(self).spec_show_processes() == old(self).spec_show_processes(),
            final(self).spec_show_detail() == old(self).spec_show_detail(),
            final(self).spec_show_help() == old(self).spec_show_help(),
            final(self).spec_theme() == old(self).spec_theme(),
            final(self).spec_mode_preference() == old(self).spec_mode_preference(),
    {
        let position = match &self.selected {
            Some(id) => find_position(gpus, id),
            None => None,
        };
        match position {
            Some(p) => {
                self.selected_position = p;

            },
            None => {
                if self.remembered.is_none() {
                    self.remembered = before_clone(&self.selected);
                }
                let p = if self.selected_position < gpus.len() - 1 {
                    self.selected_position
                } else {
                    gpus.len() - 1
                };
                self.selected = Some(gpus[p].id.clone());
                self.selected_position = p;
            },
        }
    }
    /// Display position of the selected GPU in the current model.
    pub fn selected_index(&self) -> (r: Option<usize>)
        ensures
            !self.spec_has_model() || self.spec_selected() is None ==> r is None,
            self.spec_has_model() && self.spec_selected() is Some ==> match r {
                Some(p) => position_of(self.spec_gpus(), self.spec_selected()->Some_0) == Some(p as int)
                    && p < self.spec_gpus().len(),
                None => position_of(self.spec_gpus(), self.spec_selected()->Some_0) is None,
            },
    {
        if !self.has_model {
            return None;
        }
        match &self.selected {
            Some(id) => find_position(&self.gpus, id),
            None => None,
        }
    }

    /// Moves the selection one GPU forward or back in display order,
    /// wrapping; a manual choice replaces any pending restore.
    pub fn select_step(&mut self, forward: bool) -> (a: Action)
        ensures
            step_outcome(*old(self), *final(self), forward, a),
    {
        if !self.has_model || self.gpus.len() == 0 {
            return Action::Nothing;
        }
        let len = self.gpus.len();
        let from = match self.selected_index() {
            Some(p) => p,
            None => 0,
        };
        let next = if forward {
            if from + 1 == len {
                0
            } else {
                from + 1
            }
        } else {
            if from == 0 {
                len - 1
            } else {
                from - 1
            }
        };
        proof {
            let l = len as int;
            let f = from as int;
            let n = next as int;
            assert(f < l);
            if forward {
                assert(n == (f + 1) % l) by (nonlinear_arith)
                    requires
                        0 <= f < l,
                        n == (if f + 1 == l {
                            0
                        } else {
                            f + 1
                        }),
                ;
            } else {
                assert(n == (f + l - 1) % l) by (nonlinear_arith)
                    requires
                        0 <= f < l,
                        n == (if f == 0 {
                            l - 1
                        } else {
                            f - 1
                        }),
                ;
            }
        }
        self.selected = Some(self.gpus[next].id.clone());
        self.selected_position = next;
        self.remembered = None;
        if self.show_processes {
            Action::SetProcessScope(before_clone(&self.selected))
        } else {
            Action::Nothing
        }
    }

    /// Applies one key press on a `width`×`height` terminal.
    pub fn handle_key_in_area(&mut self, key: Key, width: u16, height: u16) -> (a: Action)
        ensures
            key == Key::Char('q') ==> a == Action::Quit,
            key == Key::Esc ==> escape_outcome(*old(self), *final(self), a),
            key == Key::Char('t') ==> a == Action::Nothing && final(self).spec_theme() == old(
                self).spec_theme().spec_next(),
            key != Key::Char('t') ==> final(self).spec_theme() == old(self).spec_theme(),
            key == Key::Char('m') ==> a == Action::Nothing && final(self).spec_mode_preference()
                == preference_after(effective_spec(old(self).spec_mode_preference(), width, height)),
            key != Key::Char('m') ==> final(self).spec_mode_preference() == old(
                self).spec_mode_preference(),
            key == Key::Char('p') ==> (if !old(self).spec_show_processes() && old(
                self).spec_selected() is None {
                a == Action::Nothing && !final(self).spec_show_processes()
            } else if old(self).spec_show_processes() {
                a == Action::SetProcessScope(None) && !final(self).spec_show_processes()
            } else {
                (a matches Action::SetProcessScope(s) && id_view(s) == old(self).spec_selected())
                    && final(self).spec_show_processes()
            }),
            key == Key::Char('d') ==> a == Action::Nothing && final(self).spec_show_detail() != old(
                self).spec_show_detail(),
            key == Key::Char('?') ==> a == Action::Nothing && final(self).spec_show_help() != old(
                self).spec_show_help(),
            !(key == Key::Left || key == Key::Right || key == Key::Char('h') || key == Key::Char('l'))
                ==> final(self).spec_selected() == old(self).spec_selected(),
            key == Key::Left || key == Key::Char('h') ==> step_outcome(*old(self), *final(self), false, a),
            key == Key::Right || key == Key::Char('l') ==> step_outcome(*old(self), *final(self), true, a),
            !(key == Key::Char('q') || key == Key::Esc || key == Key::Left || key == Key::Right || key
                == Key::Char('h') || key == Key::Char('l') || key == Key::Char('t') || key == Key::Char('m')
                || key == Key::Char('p') || key == Key::Char('d') || key == Key::Char('?')) ==> a
                == Action::Nothing && final(self).spec_show_processes() == old(self).spec_show_processes()
                && final(self).spec_show_detail() == old(self).spec_show_detail()
                && final(self).spec_show_help() == old(self).spec_show_help()
                && final(self).spec_remembered() == old(self).spec_remembered(),
            final(self).spec_gpus() == old(self).spec_gpus(),
    {
        match key {
            Key::Char('q') => Action::Quit,
            Key::Esc => {
                if self.show_help {
                    self.show_help = false;
                    Action::Nothing
                } else if self.show_processes {
                    self.show_processes = false;
                    Action::SetProcessScope(None)
                } else if self.show_detail {
                    self.show_detail = false;
                    Action::Nothing
                } else {
                    Action::Quit
                }
            },
            Key::Left | Key::Char('h') => self.select_step(false),
            Key::Right | Key::Char('l') => self.select_step(true),
            Key::Char('t') => {
                self.theme = self.theme.next();
                Action::Nothing
            },
            Key::Char('m') => {
                self.mode_preference = match effective(self.mode_preference, width, height) {
                    Surface::Mode => ModePreference::Compact,
                    Surface::Compact => ModePreference::Mini,
                    Surface::Mini => ModePreference::Tiny,
                    Surface::Tiny => ModePreference::Mode,
                };
                Action::Nothing
            },
            Key::Char('p') => {
                if !self.show_processes && self.selected.is_none() {
                    return Action::Nothing;
                }
                self.show_processes = !self.show_processes;
                if self.show_processes {
                    Action::SetProcessScope(before_clone(&self.selected))
                } else {
                    Action::SetProcessScope(None)
                }
            },
            Key::Char('d') => {
                self.show_detail = !self.show_detail;
                Action::Nothing
            },
            Key::Char('?') => {
                self.show_help = !self.show_help;
                Action::Nothing
            },
            _ => Action::Nothing,
        }
    }
}

/// What one selection step does: with no adopted GPU nothing moves;
/// otherwise the selection moves one GPU forward or back with wraparound,
/// the remembered selection is dropped, and an open process overlay is
/// retargeted to the new GPU.
pub open spec fn step_outcome(before: UiState, after: UiState, forward: bool, a: Action) -> bool {
    &&& (!before.spec_has_model() || before.spec_gpus().len() == 0 ==> (a == Action::Nothing
        && after.spec_selected() == before.spec_selected()
        && after.spec_remembered() == before.spec_remembered()
        && after.spec_position() == before.spec_position()))
    &&& (before.spec_has_model() && before.spec_gpus().len() > 0 ==> {
        let len = before.spec_gpus().len() as int;
        let from = match before.spec_selected() {
            Some(id) => match position_of(before.spec_gpus(), id) {
                Some(p) => p,
                None => 0,
            },
            None => 0,
        };
        let next = if forward {
            (from + 1) % len
        } else {
            (from + len - 1) % len
        };
        &&& after.spec_position() == next
        &&& after.spec_selected() == Some(before.spec_gpus()[next].id@)
        &&& after.spec_remembered() is None
        &&& before.spec_show_processes() ==> (a matches Action::SetProcessScope(s)
            && id_view(s) == after.spec_selected())
        &&& !before.spec_show_processes() ==> a == Action::Nothing
            })
    &&& (after.spec_gpus() == before.spec_gpus())
    &&& (after.spec_has_model() == before.spec_has_model())
    &&& (after.spec_pending() == before.spec_pending())
    &&& (after.spec_theme() == before.spec_theme())
    &&& (after.spec_mode_preference() == before.spec_mode_preference())
    &&& (after.spec_show_processes() == before.spec_show_processes())
    &&& (after.spec_show_detail() == before.spec_show_detail())
    &&& (after.spec_show_help() == before.spec_show_help())
}

/// The preference the `m` key moves to from the surface on screen: the next
/// smaller surface, wrapping from the one-line surface to the full one.
pub open spec fn preference_after(shown: Surface) -> ModePreference {
    match shown {
        Surface::Mode => ModePreference::Compact,
        Surface::Compact => ModePreference::Mini,
        Surface::Mini => ModePreference::Tiny,
        Surface::Tiny => ModePreference::Mode,
    }
}

/// Escape closes the topmost overlay — help, then processes (closing their
/// scope), then detail — and quits only when none is open.
pub open spec fn escape_outcome(before: UiState, after: UiState, a: Action) -> bool {
    if before.spec_show_help() {
        &&& a == Action::Nothing
        &&& !after.spec_show_help()
        &&& after.spec_show_processes() == before.spec_show_processes()
        &&& after.spec_show_detail() == before.spec_show_detail()
    } else if before.spec_show_processes() {
        &&& a == Action::SetProcessScope(None)
        &&& !after.spec_show_processes()
        &&& !after.spec_show_help()
        &&& after.spec_show_detail() == before.spec_show_detail()
    } else if before.spec_show_detail() {
        &&& a == Action::Nothing
        &&& !after.spec_show_detail()
        &&& !after.spec_show_help()
        &&& !after.spec_show_processes()
    } else {
        &&& a == Action::Quit
        &&& !after.spec_show_help()
        &&& !after.spec_show_processes()
        &&& !after.spec_show_detail()
    }
}

fn before_clone(o: &Option<PhysicalGpuId>) -> (r: Option<PhysicalGpuId>)
    ensures
        r == *o,
{
    match o {
        Some(id) => Some(id.clone()),
        None => None,
    }
}

} // verus!
