//! Areas of the screen.

use vstd::prelude::*;

use ratatui::layout as grid;

verus! {

/// An area of the screen, in cells.
#[derive(Clone, Copy, Debug, PartialEq, Eq, Structural)]
pub struct Rect {
    pub x: u16,
    pub y: u16,
    pub width: u16,
    pub height: u16,
}

/// The smaller of two extents.
#[verifier::allow_in_spec]
pub fn min16(a: u16, b: u16) -> u16
    returns
        (if a <= b {
            a
        } else {
            b
        }),
{
    if a <= b {
        a
    } else {
        b
    }
}

/// `a + b`, at most the largest extent.
#[verifier::allow_in_spec]
pub fn plus16(a: u16, b: u16) -> u16
    returns
        (if a + b > 65535 {
            65535u16
        } else {
            (a + b) as u16
        }),
{
    a.saturating_add(b)
}

/// `a - b`, at least nothing.
#[verifier::allow_in_spec]
pub fn minus16(a: u16, b: u16) -> u16
    returns
        (if a < b {
            0u16
        } else {
            (a - b) as u16
        }),
{
    a.saturating_sub(b)
}

impl Rect {
    /// The area at `(x, y)`, cut off where coordinates end.
    #[verifier::allow_in_spec]
    pub fn new(x: u16, y: u16, width: u16, height: u16) -> Rect
        returns
            (Rect {
                x,
                y,
                width: min16(width, (65535 - x) as u16),
                height: min16(height, (65535 - y) as u16),
            }),
    {
        Rect { x, y, width: min16(width, 65535 - x), height: min16(height, 65535 - y) }
    }

    /// The ends of the area are coordinates.
    pub open spec fn fits(self) -> bool {
        self.x + self.width <= 65535 && self.y + self.height <= 65535
    }

    /// Whether the cell at column `x` and row `y` lies in the area.
    pub open spec fn has(self, x: int, y: int) -> bool {
        self.x <= x < self.x + self.width && self.y <= y < self.y + self.height
    }

    /// Whether the area lies within `outer`.
    pub open spec fn within(self, outer: Rect) -> bool {
        &&& outer.x <= self.x
        &&& outer.y <= self.y
        &&& self.x + self.width <= outer.x + outer.width
        &&& self.y + self.height <= outer.y + outer.height
    }

    /// Whether no cell lies in both areas.
    pub open spec fn apart(self, other: Rect) -> bool {
        forall|x: int, y: int| !(self.has(x, y) && #[trigger] other.has(x, y))
    }

    /// Whether the cell at column `x` and row `y` lies in the area.
    pub fn contains(&self, x: u16, y: u16) -> (r: bool)
        ensures
            r == self.has(x as int, y as int),
    {
        x >= self.x && (x - self.x) < self.width && y >= self.y && (y - self.y) < self.height
    }

    /// What is left inside a border around the area.
    #[verifier::allow_in_spec]
    pub fn inside(self) -> Rect
        returns
            (Rect {
                x: min16(plus16(self.x, 1), plus16(self.x, self.width)),
                y: min16(plus16(self.y, 1), plus16(self.y, self.height)),
                width: minus16(self.width, 2),
                height: minus16(self.height, 2),
            }),
    {
        Rect {
            x: min16(plus16(self.x, 1), plus16(self.x, self.width)),
            y: min16(plus16(self.y, 1), plus16(self.y, self.height)),
            width: minus16(self.width, 2),
            height: minus16(self.height, 2),
        }
    }
}

/// What a part of an area asks for.
#[derive(Clone, Copy, Debug, PartialEq, Eq, Structural)]
pub enum Constraint {
    Length(u16),
    Min(u16),
    Percentage(u16),
}

/// Whether `part` is a part of `area`: within it, as wide as it is where the
/// parts are on top of each other, and as high where they are side by side.
pub open spec fn is_part(part: Rect, area: Rect, vertical: bool) -> bool {
    &&& area.fits() ==> part.within(area)
    &&& vertical ==> part.x == area.x && part.width == area.width
    &&& !vertical ==> part.y == area.y && part.height == area.height
}

/// Whether a list holds `n` parts of an area.
pub open spec fn are_parts(parts: Seq<Rect>, area: Rect, vertical: bool, n: nat) -> bool {
    &&& parts.len() == n
    &&& forall|i: int| 0 <= i < parts.len() ==> is_part(#[trigger] parts[i], area, vertical)
}

/// How far an area goes in the direction of a split.
pub open spec fn extent(area: Rect, vertical: bool) -> nat {
    if vertical {
        area.height as nat
    } else {
        area.width as nat
    }
}

/// What the first `n` constraints ask for at least, percentages left out.
pub open spec fn wished(cs: Seq<Constraint>, n: nat) -> nat
    decreases n,
{
    if n == 0 {
        0
    } else {
        wished(cs, (n - 1) as nat) + (match cs[n - 1] {
            Constraint::Length(l) => l as nat,
            Constraint::Min(m) => m as nat,
            Constraint::Percentage(_) => 0,
        })
    }
}

/// The fixed lengths among the first `n` constraints, in all.
pub open spec fn lengths(cs: Seq<Constraint>, n: nat) -> nat
    decreases n,
{
    if n == 0 {
        0
    } else {
        lengths(cs, (n - 1) as nat) + (match cs[n - 1] {
            Constraint::Length(l) => l as nat,
            _ => 0,
        })
    }
}

/// The percentages among the first `n` constraints, in all.
pub open spec fn percents(cs: Seq<Constraint>, n: nat) -> nat
    decreases n,
{
    if n == 0 {
        0
    } else {
        percents(cs, (n - 1) as nat) + (match cs[n - 1] {
            Constraint::Percentage(p) => p as nat,
            _ => 0,
        })
    }
}

/// Whether all constraints can be met: lengths, and at most one part that
/// takes what they leave.
pub open spec fn has_room(cs: Seq<Constraint>, extent: nat) -> bool {
    &&& forall|i: int| 0 <= i < cs.len() ==> #[trigger] cs[i] !is Percentage
    &&& forall|i: int, j: int|
        0 <= i < j < cs.len() ==> !(#[trigger] cs[i] is Min && #[trigger] cs[j] is Min)
    &&& forall|i: int|
        0 <= i < cs.len() ==> (#[trigger] cs[i] matches Constraint::Min(m) ==> m <= 32767)
    &&& wished(cs, cs.len()) <= extent
}

/// Whether the constraints are percentages, and not more than the whole.
pub open spec fn shares_whole(cs: Seq<Constraint>) -> bool {
    &&& forall|i: int| 0 <= i < cs.len() ==> #[trigger] cs[i] is Percentage
    &&& percents(cs, cs.len()) <= 100
}

/// Where the first `n` parts end, where there is room for all: a length is as
/// long as it says, and the other part takes what is left.
pub open spec fn offset(cs: Seq<Constraint>, n: nat, extent: nat) -> nat
    decreases n,
{
    if n == 0 {
        0
    } else {
        offset(cs, (n - 1) as nat, extent) + (match cs[n - 1] {
            Constraint::Length(l) => l as nat,
            _ => (extent - lengths(cs, cs.len())) as nat,
        })
    }
}

/// So many percent of an extent, rounded.
pub open spec fn percent_of(p: nat, extent: nat) -> nat {
    (extent * p + 50) / 100
}

/// Whether a part runs from `from` to `to` in the direction of a split.
pub open spec fn runs(part: Rect, area: Rect, vertical: bool, from: nat, to: nat) -> bool {
    if vertical {
        part.y == area.y + from && part.height == to - from
    } else {
        part.x == area.x + from && part.width == to - from
    }
}

/// Whether a list holds the parts of an area that constraints ask for.
pub open spec fn settles(
    parts: Seq<Rect>,
    area: Rect,
    vertical: bool,
    cs: Seq<Constraint>,
) -> bool {
    let e = extent(area, vertical);
    &&& are_parts(parts, area, vertical, cs.len())
    &&& area.fits() && has_room(cs, e) ==> forall|i: int|
        0 <= i < cs.len() ==> runs(
            #[trigger] parts[i],
            area,
            vertical,
            offset(cs, i as nat, e),
            offset(cs, (i + 1) as nat, e),
        )
    &&& area.fits() && shares_whole(cs) ==> forall|i: int|
        0 <= i < cs.len() ==> runs(
            #[trigger] parts[i],
            area,
            vertical,
            percent_of(percents(cs, i as nat), e),
            percent_of(percents(cs, (i + 1) as nat), e),
        )
}

/// `Layout::split` of ratatui: one area for each constraint, each within
/// `area` and spanning the whole of it across the direction of the split.
/// Lengths with at most one minimum among them are met where there is room,
/// and the minimum takes what is left; percentages of up to the whole are met,
/// rounded to cells. Where constraints conflict, its solver may settle them
/// either way; nothing more is claimed of that.
#[verifier::external_body]
pub(crate) fn split(area: Rect, vertical: bool, constraints: &Vec<Constraint>) -> (r: Vec<Rect>)
    ensures
        settles(r@, area, vertical, constraints@),
{
    let wishes = constraints.iter().map(|c| match c {
        Constraint::Length(n) => grid::Constraint::Length(*n),
        Constraint::Min(n) => grid::Constraint::Min(*n),
        Constraint::Percentage(n) => grid::Constraint::Percentage(*n),
    });
    let direction = match vertical {
        true => grid::Direction::Vertical,
        false => grid::Direction::Horizontal,
    };
    let whole = grid::Rect { x: area.x, y: area.y, width: area.width, height: area.height };
    let parts = grid::Layout::new(direction, wishes).split(whole);
    parts.iter().map(|p| Rect { x: p.x, y: p.y, width: p.width, height: p.height }).collect()
}

} // verus!
