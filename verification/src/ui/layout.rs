//! Responsive surface policy: breakpoints, fit, and fallback order.
//!
//! A forced preference is a preference, not permission to clip: when it
//! does not fit, the richest fitting surface wins.
use vstd::prelude::*;
use crate::config::ModePreference;

verus! {

/// A terminal rectangle in cells, as the terminal library lays it out.
#[derive(Debug, Clone, Copy, PartialEq, Eq, Structural, Default)]
pub struct Rect {
    pub x: u16,
    pub y: u16,
    pub width: u16,
    pub height: u16,
}

impl Rect {
    /// A rectangle whose size is clamped so it ends within the coordinate
    /// space.
    pub fn new(x: u16, y: u16, width: u16, height: u16) -> (r: Rect)
        ensures
            r.x == x && r.y == y,
            r.width == (if width > u16::MAX - x {
                (u16::MAX - x) as u16
            } else {
                width
            }),
            r.height == (if height > u16::MAX - y {
                (u16::MAX - y) as u16
            } else {
                height
            }),
    {
        let max_width = u16::MAX - x;
        let max_height = u16::MAX - y;
        Rect {
            x,
            y,
            width: if width > max_width {
                max_width
            } else {
                width
            },
            height: if height > max_height {
                max_height
            } else {
                height
            },
        }
    }

    pub open spec fn spec_right(self) -> int {
        if self.x + self.width > u16::MAX {
            u16::MAX as int
        } else {
            self.x + self.width
        }
    }

    pub open spec fn spec_bottom(self) -> int {
        if self.y + self.height > u16::MAX {
            u16::MAX as int
        } else {
            self.y + self.height
        }
    }

    /// The first column right of the rectangle (saturating).
    pub fn right(self) -> (r: u16)
        ensures
            r == self.spec_right(),
    {
        self.x.saturating_add(self.width)
    }

    /// The first row below the rectangle (saturating).
    pub fn bottom(self) -> (r: u16)
        ensures
            r == self.spec_bottom(),
    {
        self.y.saturating_add(self.height)
    }

    pub open spec fn spec_intersects(self, other: Rect) -> bool {
        self.x < other.spec_right() && self.spec_right() > other.x && self.y < other.spec_bottom()
            && self.spec_bottom() > other.y
    }

    /// Whether two rectangles share a cell.
    pub fn intersects(self, other: Rect) -> (r: bool)
        ensures
            r == self.spec_intersects(other),
    {
        self.x < other.right() && self.right() > other.x && self.y < other.bottom() && self.bottom()
            > other.y
    }
}

/// One responsive surface, richest first.
#[derive(Debug, Clone, Copy, PartialEq, Eq, Structural)]
pub enum Surface {
    /// Full selected-GPU instrument cluster.
    Mode,
    /// Header, strip, panels, support, and health without the logo block.
    Compact,
    /// The two graphs only.
    Mini,
    /// One status line.
    Tiny,
}

impl Surface {
    pub open spec fn spec_name(self) -> Seq<char> {
        match self {
            Surface::Mode => "mode"@,
            Surface::Compact => "compact"@,
            Surface::Mini => "mini"@,
            Surface::Tiny => "tiny"@,
        }
    }

    /// The surface's name.
    pub fn name(self) -> (r: &'static str)
        ensures
            r@ == self.spec_name(),
    {
        match self {
            Surface::Mode => "mode",
            Surface::Compact => "compact",
            Surface::Mini => "mini",
            Surface::Tiny => "tiny",
        }
    }

    /// Exact breakpoints: 72×34, 62×17, 48×11; the one-line surface always
    /// fits.
    pub open spec fn spec_fits(self, width: u16, height: u16) -> bool {
        match self {
            Surface::Mode => width >= 72 && height >= 34,
            Surface::Compact => width >= 62 && height >= 17,
            Surface::Mini => width >= 48 && height >= 11,
            Surface::Tiny => true,
        }
    }

    /// Whether the surface fits a `width`×`height` terminal.
    pub fn fits(self, width: u16, height: u16) -> (r: bool)
        ensures
            r == self.spec_fits(width, height),
    {
        match self {
            Surface::Mode => width >= 72 && height >= 34,
            Surface::Compact => width >= 62 && height >= 17,
            Surface::Mini => width >= 48 && height >= 11,
            Surface::Tiny => true,
        }
    }

    /// Richness order: a smaller rank is richer.
    pub open spec fn richness(self) -> nat {
        match self {
            Surface::Mode => 0,
            Surface::Compact => 1,
            Surface::Mini => 2,
            Surface::Tiny => 3,
        }
    }
}

/// The richest surface that fits.
pub open spec fn automatic_spec(width: u16, height: u16) -> Surface {
    if Surface::Mode.spec_fits(width, height) {
        Surface::Mode
    } else if Surface::Compact.spec_fits(width, height) {
        Surface::Compact
    } else if Surface::Mini.spec_fits(width, height) {
        Surface::Mini
    } else {
        Surface::Tiny
    }
}

/// The richest surface that fits a `width`×`height` terminal.
pub fn automatic(width: u16, height: u16) -> (s: Surface)
    ensures
        s == automatic_spec(width, height),
        s.spec_fits(width, height),
        forall|t: Surface| t.spec_fits(width, height) ==> s.richness() <= t.richness(),
{
    if Surface::Mode.fits(width, height) {
        Surface::Mode
    } else if Surface::Compact.fits(width, height) {
        Surface::Compact
    } else if Surface::Mini.fits(width, height) {
        Surface::Mini
    } else {
        Surface::Tiny
    }
}

/// The surface a preference forces, if it forces one.
pub open spec fn forced_surface(preference: ModePreference) -> Option<Surface> {
    match preference {
        ModePreference::Auto => None,
        ModePreference::Mode => Some(Surface::Mode),
        ModePreference::Compact => Some(Surface::Compact),
        ModePreference::Mini => Some(Surface::Mini),
        ModePreference::Tiny => Some(Surface::Tiny),
    }
}

/// The surface rendered for a preference.
pub open spec fn effective_spec(preference: ModePreference, width: u16, height: u16) -> Surface {
    match forced_surface(preference) {
        Some(s) => if s.spec_fits(width, height) {
            s
        } else {
            automatic_spec(width, height)
        },
        None => automatic_spec(width, height),
    }
}

/// The surface actually rendered: the preference when it fits, otherwise
/// the richest fitting surface. A later resize restores the preference.
pub fn effective(preference: ModePreference, width: u16, height: u16) -> (s: Surface)
    ensures
        s == effective_spec(preference, width, height),
        s.spec_fits(width, height),
        forall|t: Surface|
            preference != ModePreference::Auto && t.spec_name() == preference.spec_name()
                && #[trigger] t.spec_fits(width, height) ==> s == t,
{
    proof {
        assert forall|t: Surface|
            preference != ModePreference::Auto && t.spec_name() == preference.spec_name()
                && #[trigger] t.spec_fits(width, height) implies effective_spec(preference, width, height) == t by {
            lemma_forced_surface_is_rendered_when_it_fits(preference, t, width, height);
        }
    }
    let forced = match preference {
        ModePreference::Auto => {
            return automatic(width, height);
        },
        ModePreference::Mode => Surface::Mode,
        ModePreference::Compact => Surface::Compact,
        ModePreference::Mini => Surface::Mini,
        ModePreference::Tiny => Surface::Tiny,
    };
    if forced.fits(width, height) {
        forced
    } else {
        automatic(width, height)
    }
}

/// A forced preference is honoured whenever its surface fits: the surface
/// named like the preference is exactly what is rendered.
pub proof fn lemma_forced_surface_is_rendered_when_it_fits(
    preference: ModePreference,
    surface: Surface,
    width: u16,
    height: u16,
)
    requires
        preference != ModePreference::Auto,
        surface.spec_name() == preference.spec_name(),
        surface.spec_fits(width, height),
    ensures
        effective_spec(preference, width, height) == surface,
{
    reveal_strlit("mode");
    reveal_strlit("compact");
    reveal_strlit("mini");
    reveal_strlit("tiny");
    assert("mode"@.len() == 4 && "mode"@[0] == 'm' && "mode"@[1] == 'o');
    assert("compact"@.len() == 7);
    assert("mini"@.len() == 4 && "mini"@[0] == 'm' && "mini"@[1] == 'i');
    assert("tiny"@.len() == 4 && "tiny"@[0] == 't');
}

/// Without a forced surface that fits (automatic, or a forced one too large
/// for the terminal), the richest surface that fits is rendered.
pub proof fn lemma_fallback_is_richest_fitting(preference: ModePreference, width: u16, height: u16)
    requires
        preference == ModePreference::Auto || forall|t: Surface|
            t.spec_name() == preference.spec_name() ==> !#[trigger] t.spec_fits(width, height),
    ensures
        effective_spec(preference, width, height).spec_fits(width, height),
        forall|t: Surface| #[trigger] t.spec_fits(width, height) ==> effective_spec(
            preference,
            width,
            height,
        ).richness() <= t.richness(),
{
    reveal_strlit("mode");
    reveal_strlit("compact");
    reveal_strlit("mini");
    reveal_strlit("tiny");
    reveal_strlit("auto");
    if preference != ModePreference::Auto {
        let forced = forced_surface(preference)->0;
        assert(forced.spec_name() == preference.spec_name());
        assert(!forced.spec_fits(width, height));
    }
}

/// Whatever the preference, the rendered surface fits: nothing is clipped.
pub proof fn lemma_effective_never_clips(preference: ModePreference, width: u16, height: u16)
    ensures
        effective_spec(preference, width, height).spec_fits(width, height),
{
}

/// A `width`×`height` rectangle centered inside `area`, clamped to it.
pub fn centered(area: Rect, width: u16, height: u16) -> (r: Rect)
    requires
        area.x + area.width <= u16::MAX,
        area.y + area.height <= u16::MAX,
    ensures
        r.width == (if width < area.width {
            width
        } else {
            area.width
        }),
        r.height == (if height < area.height {
            height
        } else {
            area.height
        }),
        r.x == area.x + (if area.width > width {
            area.width - width
        } else {
            0
        }) / 2,
        r.y == area.y + (if area.height > height {
            area.height - height
        } else {
            0
        }) / 2,
        r.x + r.width <= area.x + area.width,
        r.y + r.height <= area.y + area.height,
{
    let x = area.x + area.width.saturating_sub(width) / 2;
    let y = area.y + area.height.saturating_sub(height) / 2;
    let w = if width < area.width {
        width
    } else {
        area.width
    };
    let h = if height < area.height {
        height
    } else {
        area.height
    };
    Rect { x, y, width: w, height: h }
}

// ---------------------------------------------------------------------------
// GPU strip window
// ---------------------------------------------------------------------------

/// The width label `i` adds to a strip window opened at `start`: its own
/// width, plus the two-column gap before every label but the first.
pub open spec fn strip_extra(widths: Seq<usize>, start: int, i: int) -> int {
    widths[i] + if i > start {
        2int
    } else {
        0int
    }
}

/// The width of the labels `start..end` laid out as one window.
pub open spec fn strip_span(widths: Seq<usize>, start: int, end: int) -> int
    decreases end - start,
{
    if end <= start {
        0
    } else {
        strip_span(widths, start, end - 1) + strip_extra(widths, start, end - 1)
    }
}

/// The end of the window that, having laid out labels `start..end` in
/// `used` columns, keeps adding labels while they fit in `available`, and
/// always until the selected label is in.
pub open spec fn strip_grow(
    widths: Seq<usize>,
    start: int,
    end: int,
    used: int,
    available: int,
    selected: int,
) -> int
    decreases widths.len() - end,
{
    if end < 0 || end >= widths.len() {
        end
    } else if used + strip_extra(widths, start, end) > available && end > selected {
        end
    } else {
        strip_grow(widths, start, end + 1, used + strip_extra(widths, start, end), available, selected)
    }
}

/// Every label's width with its gap, summed: the most a window can use.
pub open spec fn strip_total(widths: Seq<usize>) -> int
    decreases widths.len(),
{
    if widths.len() == 0 {
        0
    } else {
        strip_total(widths.drop_last()) + widths.last() + 2
    }
}

proof fn lemma_strip_total_nonneg(widths: Seq<usize>)
    ensures
        strip_total(widths) >= 0,
    decreases widths.len(),
{
    if widths.len() > 0 {
        lemma_strip_total_nonneg(widths.drop_last());
    }
}

proof fn lemma_strip_total_prefix(widths: Seq<usize>, k: int)
    requires
        0 <= k <= widths.len(),
    ensures
        strip_total(widths.take(k)) <= strip_total(widths),
    decreases widths.len() - k,
{
    if k < widths.len() {
        lemma_strip_total_prefix(widths, k + 1);
        assert(widths.take(k + 1).drop_last() =~= widths.take(k));
    } else {
        assert(widths.take(k) =~= widths);
    }
}

/// The window of GPU labels the strip shows, as `(start, end)`: it opens
/// one label before the selected one and grows while the labels (two
/// columns apart) fit in `available`, always reaching the selected label.
pub fn strip_window(label_widths: &Vec<usize>, selected: usize, available: usize) -> (r: (
    usize,
    usize,
))
    requires
        selected < label_widths@.len(),
        strip_total(label_widths@) <= usize::MAX,
    ensures
        r.0 == (if selected > 0 {
            selected - 1
        } else {
            0
        }),
        r.1 == strip_grow(label_widths@, r.0 as int, r.0 as int, 0, available as int, selected as int),
        r.0 <= selected < r.1 <= label_widths@.len(),
        r.1 > selected + 1 ==> strip_span(label_widths@, r.0 as int, r.1 as int) <= available,
        r.1 < label_widths@.len() ==> strip_span(label_widths@, r.0 as int, r.1 as int)
            + strip_extra(label_widths@, r.0 as int, r.1 as int) > available,
{
    let ghost w = label_widths@;
    let start: usize = if selected > 0 {
        selected - 1
    } else {
        0
    };
    let mut end: usize = start;
    let mut used: usize = 0;
    proof {
        assert(w.take(start as int).len() == start);
        lemma_strip_total_prefix(w, start as int);
        lemma_strip_total_nonneg(w.take(start as int));
    }
    while end < label_widths.len()
        invariant_except_break
            start <= end <= w.len(),
            w == label_widths@,
            selected < w.len(),
            start <= selected,
            strip_total(w) <= usize::MAX,
            used == strip_span(w, start as int, end as int),
            used <= strip_total(w.take(end as int)),
            end > selected + 1 ==> used <= available,
            strip_grow(w, start as int, end as int, used as int, available as int, selected as int)
                == strip_grow(w, start as int, start as int, 0, available as int, selected as int),
        ensures
            start <= end <= w.len(),
            used == strip_span(w, start as int, end as int),
            end > selected + 1 ==> used <= available,
            end == strip_grow(w, start as int, start as int, 0, available as int, selected as int),
            end > selected,
            end < w.len() ==> used + strip_extra(w, start as int, end as int) > available,
        decreases w.len() - end,
    {
        proof {
            lemma_strip_total_prefix(w, end as int + 1);
            assert(w.take(end as int + 1).drop_last() =~= w.take(end as int));
            assert(w.take(end as int + 1).last() == w[end as int]);
        }
        let gap: usize = if end > start {
            2
        } else {
            0
        };
        let extra = label_widths[end] + gap;
        if used + extra > available && end > selected {
            break;
        }
        used = used + extra;
        end = end + 1;
    }
    (start, end)
}

} // verus!
