//! The optional decorative cat: its sprite, footprint, and where it rests.
//! Strictly presentation; it never covers the instrument box or the notice
//! row and contributes nothing to telemetry.
use vstd::prelude::*;
use crate::ui::layout::Rect;
use crate::text::{extend_chars, string_of};

verus! {

/// The terminal display width of a string, in cells, as `unicode-width`
/// measures it.
pub uninterp spec fn text_width(s: Seq<char>) -> nat;

/// `UnicodeWidthStr::width`: the display width of a string in terminal
/// cells. The result is the named width of the argument.
#[verifier::external_body]
fn display_width(s: &str) -> (r: usize)
    ensures
        r == text_width(s@),
{
    unicode_width::UnicodeWidthStr::width(s)
}

/// The breathing "z"s: one, two, or three.
pub open spec fn zzz(breath: nat) -> Seq<char> {
    if breath % 3 == 0 {
        "z"@
    } else if breath % 3 == 1 {
        "zz"@
    } else {
        "zzz"@
    }
}

/// The three sprite lines for a breath frame.
pub open spec fn sprite_lines(breath: nat) -> Seq<Seq<char>> {
    seq!["　　　　  "@ + zzz(breath), "  γ ⌒ヽﾊ,,ﾊ"@, "（\"_）(-ｪ-,,）"@]
}

/// The curled-cat sprite, with the "z"s breathing through three lengths.
pub fn sprite(breath: usize) -> (r: [String; 3])
    ensures
        r[0]@ == sprite_lines(breath as nat)[0],
        r[1]@ == sprite_lines(breath as nat)[1],
        r[2]@ == sprite_lines(breath as nat)[2],
{
    let z = if breath % 3 == 0 {
        "z"
    } else if breath % 3 == 1 {
        "zz"
    } else {
        "zzz"
    };
    let mut first: Vec<char> = Vec::new();
    extend_chars(&mut first, "　　　　  ");
    extend_chars(&mut first, z);
    [string_of(&first), "  γ ⌒ヽﾊ,,ﾊ".to_owned(), "（\"_）(-ｪ-,,）".to_owned()]
}

/// The widest of three widths.
pub open spec fn max3(a: nat, b: nat, c: nat) -> nat {
    if a >= b && a >= c {
        a
    } else if b >= c {
        b
    } else {
        c
    }
}

/// Cell footprint of the widest breath frame, so the chosen spot never
/// shifts as the "z"s lengthen.
pub fn footprint() -> (r: (u16, u16))
    ensures
        r.0 == (max3(
            text_width(sprite_lines(2)[0]),
            text_width(sprite_lines(2)[1]),
            text_width(sprite_lines(2)[2]),
        ) as u16),
        r.1 == 3,
{
    let lines = sprite(2);
    let a = display_width(lines[0].as_str());
    let b = display_width(lines[1].as_str());
    let c = display_width(lines[2].as_str());
    let widest = if a >= b && a >= c {
        a
    } else if b >= c {
        b
    } else {
        c
    };
    (widest as u16, 3)
}

/// One blank-space resting spot, anchored to a corner or side margin.
#[derive(Debug, Clone, Copy, PartialEq, Eq, Structural)]
pub enum Spot {
    TopLeft,
    TopRight,
    MidLeft,
    MidRight,
    BottomLeft,
    BottomRight,
}

/// The resting spots in trial order.
pub open spec fn spot_at(k: nat) -> Spot {
    if k % 6 == 0 {
        Spot::TopLeft
    } else if k % 6 == 1 {
        Spot::TopRight
    } else if k % 6 == 2 {
        Spot::MidLeft
    } else if k % 6 == 3 {
        Spot::MidRight
    } else if k % 6 == 4 {
        Spot::BottomLeft
    } else {
        Spot::BottomRight
    }
}

fn spot_exec(k: usize) -> (s: Spot)
    ensures
        s == spot_at(k as nat),
{
    match k % 6 {
        0 => Spot::TopLeft,
        1 => Spot::TopRight,
        2 => Spot::MidLeft,
        3 => Spot::MidRight,
        4 => Spot::BottomLeft,
        _ => Spot::BottomRight,
    }
}

impl Spot {
    pub open spec fn is_left(self) -> bool {
        self == Spot::TopLeft || self == Spot::MidLeft || self == Spot::BottomLeft
    }

    /// The spot's rectangle for a `width`×`height` sprite in `area`, keeping
    /// the top row clear for the notice line; `None` when it doesn't fit.
    pub open spec fn spec_rect(self, area: Rect, width: u16, height: u16) -> Option<Rect> {
        let top = if area.y + 1 > u16::MAX {
            u16::MAX as int
        } else {
            area.y + 1
        };
        let usable = if area.height >= 1 {
            area.height - 1
        } else {
            0
        };
        if area.width < width || usable < height {
            None
        } else {
            let x = if self.is_left() {
                area.x as int
            } else {
                area.x + area.width - width
            };
            let y = if self == Spot::TopLeft || self == Spot::TopRight {
                top
            } else if self == Spot::MidLeft || self == Spot::MidRight {
                top + (usable - height) / 2
            } else {
                area.y + area.height - height
            };
            Some(Rect { x: x as u16, y: y as u16, width, height })
        }
    }

    /// The spot's rectangle for a `width`×`height` sprite in `area`.
    pub fn rect(self, area: Rect, width: u16, height: u16) -> (r: Option<Rect>)
        requires
            area.x + area.width <= u16::MAX,
            area.y + area.height <= u16::MAX,
        ensures
            r == self.spec_rect(area, width, height),
            r matches Some(b) ==> (b.x >= area.x && b.x + b.width <= area.x + area.width && b.y
                >= area.y && (area.height > 0 ==> b.y > area.y) && (height > 0 ==> b.y
                + b.height <= area.y + area.height)),
    {
        let top = area.y.saturating_add(1);
        let usable_height = area.height.saturating_sub(1);
        if area.width < width || usable_height < height {
            return None;
        }
        let x = match self {
            Spot::TopLeft | Spot::MidLeft | Spot::BottomLeft => area.x,
            Spot::TopRight | Spot::MidRight | Spot::BottomRight => area.x + area.width - width,
        };
        let y = match self {
            Spot::TopLeft | Spot::TopRight => top,
            Spot::MidLeft | Spot::MidRight => top + (usable_height - height) / 2,
            Spot::BottomLeft | Spot::BottomRight => area.y + area.height - height,
        };
        Some(Rect::new(x, y, width, height))
    }
}

/// The first spot, trying from `start` round all six, whose rectangle fits
/// and stays clear of `reserved`.
pub open spec fn resting_spot(area: Rect, reserved: Rect, width: u16, height: u16, start: nat, tried: nat) -> Option<Rect>
    decreases 6 - tried,
{
    if tried >= 6 {
        None
    } else {
        match spot_at(start + tried).spec_rect(area, width, height) {
            Some(r) => if !r.spec_intersects(reserved) {
                Some(r)
            } else {
                resting_spot(area, reserved, width, height, start, tried + 1)
            },
            None => resting_spot(area, reserved, width, height, start, tried + 1),
        }
    }
}

/// Where the cat rests: the first free spot from `start`, or nowhere when
/// every spot would touch the instrument box. Nothing is ever clipped.
pub fn resting_rect(area: Rect, reserved: Rect, width: u16, height: u16, start: usize) -> (r:
    Option<Rect>)
    requires
        area.x + area.width <= u16::MAX,
        area.y + area.height <= u16::MAX,
        start < 6,
    ensures
        r == resting_spot(area, reserved, width, height, start as nat, 0),
        r matches Some(b) ==> !b.spec_intersects(reserved),
{
    let mut tried: usize = 0;
    while tried < 6
        invariant
            tried <= 6,
            start < 6,
            area.x + area.width <= u16::MAX,
            area.y + area.height <= u16::MAX,
            resting_spot(area, reserved, width, height, start as nat, 0) == resting_spot(
                area,
                reserved,
                width,
                height,
                start as nat,
                tried as nat,
            ),
        decreases 6 - tried,
    {
        let spot = spot_exec(start + tried);
        match spot.rect(area, width, height) {
            Some(rect) => {
                if !rect.intersects(reserved) {
                    return Some(rect);
                }
            },
            None => {},
        }
        tried = tried + 1;
    }
    None
}

} // verus!
