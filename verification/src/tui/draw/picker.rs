//! The path picker.

use vstd::prelude::*;

use crate::layout::{min16, minus16, plus16, Rect};
use crate::style::{line_views, sp, Color, Line, Modifiers, SpanView, Style};
use crate::text::{repeat_char, repeated};
use crate::tui::draw::panels::{window, window_end};
use crate::tui::draw::{no_lines, push_line, Canvas, Picture};
use crate::tui::spotlight::{SpotlightEntry, SpotlightState, SpotlightView};

verus! {

/// The areas in the picker: what is typed, a divider, the entries and a hint.
#[derive(Clone, Copy, Debug, PartialEq, Eq, Structural)]
pub struct PickerParts {
    pub input: Rect,
    pub divider: Rect,
    pub results: Rect,
    pub hint: Rect,
}

/// At most so many entries are shown.
pub const ENTRIES_SHOWN: u16 = 8;

/// The width of the picker on a screen of a width: three fifths, at least forty
/// columns, with a margin left.
#[verifier::allow_in_spec]
pub fn picker_width(screen: u16) -> u16
    returns
        min16(
            if screen as u32 * 60 / 100 < 40 {
                40u16
            } else {
                (screen as u32 * 60 / 100) as u16
            },
            minus16(screen, 2),
        ),
{
    let w: u32 = screen as u32 * 60 / 100;
    min16(
        if w < 40 {
            40u16
        } else {
            w as u16
        },
        minus16(screen, 2),
    )
}

/// Where the picker is: centered, in the upper third of the screen.
#[verifier::allow_in_spec]
pub fn picker_rect(area: Rect) -> Rect
    returns
        Rect::new(
            plus16(area.x, minus16(area.width, picker_width(area.width)) / 2),
            plus16(area.y, area.height / 6),
            picker_width(area.width),
            min16(12, minus16(area.height, 2)),
        ),
{
    Rect::new(
        plus16(area.x, minus16(area.width, picker_width(area.width)) / 2),
        plus16(area.y, area.height / 6),
        picker_width(area.width),
        min16(12, minus16(area.height, 2)),
    )
}

/// The background of an entry.
#[verifier::allow_in_spec]
pub fn entry_ground(selected: bool) -> Color
    returns
        (if selected {
            Color::Rgb(40, 40, 70)
        } else {
            Color::Reset
        }),
{
    if selected {
        Color::Rgb(40, 40, 70)
    } else {
        Color::Reset
    }
}

/// The style of the path of an entry.
#[verifier::allow_in_spec]
pub fn entry_style(is_dir: bool, ground: Color) -> Style
    returns
        (if is_dir {
            Style::plain().fg(Color::Blue).bg(ground).bold()
        } else {
            Style::plain().fg(Color::White).bg(ground)
        }),
{
    if is_dir {
        Style::plain().fg(Color::Blue).bg(ground).bold()
    } else {
        Style::plain().fg(Color::White).bg(ground)
    }
}

/// How an entry is drawn.
pub open spec fn entry_line(e: SpotlightEntry, selected: bool) -> Seq<SpanView> {
    let ground = entry_ground(selected);
    let line = seq![
        sp(
            if selected {
                "  ▸ "@
            } else {
                "    "@
            },
            Style::plain().fg(Color::Cyan).bold().bg(ground),
        ),
        sp(e.path@, entry_style(e.is_dir, ground)),
    ];
    if e.is_dir {
        line.push(sp("/"@, Style::plain().fg(Color::Blue).bg(ground)))
    } else {
        line
    }
}

impl SpotlightView {
    /// How many entries are shown at most.
    pub open spec fn entries_shown(self, results: Rect) -> nat {
        min16(results.height, ENTRIES_SHOWN) as nat
    }

    /// The first entry that is shown.
    pub open spec fn first_shown(self, results: Rect) -> nat {
        let n = self.entries_shown(results);
        if self.selected >= n {
            (self.selected + 1 - n) as nat
        } else {
            0
        }
    }

    /// The entries that are shown.
    pub open spec fn shown(self, results: Rect) -> Seq<SpotlightEntry> {
        window(self.candidates, self.first_shown(results), self.entries_shown(results))
    }

    /// With the first `n` of the entries that are shown.
    pub open spec fn entries_on(self, p: Picture, results: Rect, n: nat) -> Picture
        decreases n,
    {
        if n == 0 {
            p
        } else {
            let k = (n - 1) as nat;
            let selected = self.first_shown(results) + k == self.selected;
            self.entries_on(p, results, k).para(
                Rect::new(results.x, plus16(results.y, k as u16), results.width, 1),
                seq![entry_line(self.shown(results)[k as int], selected)],
                Style::plain().bg(entry_ground(selected)),
                false,
            )
        }
    }

    /// With all entries that are shown, or the remark that there are none.
    pub open spec fn results_on(self, p: Picture, results: Rect) -> Picture {
        if self.candidates.len() == 0 {
            p.label(
                results,
                "    (no matches)"@,
                Style::plain().fg(Color::DarkGray).add_modifier(Modifiers::just_italic()),
            )
        } else {
            self.entries_on(p, results, self.shown(results).len())
        }
    }

    /// With the picker. What is in it is left out where there is no room.
    pub open spec fn picker_on(self, p: Picture, popup: Rect, parts: PickerParts) -> Picture {
        let framed = p.boxed(
            popup,
            sp(" Spotlight "@, Style::plain().fg(Color::Cyan).bold()),
            Style::plain().fg(Color::Cyan),
        );
        if popup.inside().height < 4 {
            framed
        } else {
            let typed = framed.line(
                parts.input,
                seq![
                    sp("  󰍉 "@, Style::plain().fg(Color::Yellow).bold()),
                    sp(" "@, Style::plain()),
                    sp(self.input, Style::plain().fg(Color::White).bold()),
                    sp("█"@, Style::plain().fg(Color::Yellow)),
                ],
            );
            let divided = typed.label(
                parts.divider,
                repeated('─', parts.divider.width as nat),
                Style::plain().fg(Color::DarkGray),
            );
            self.results_on(divided, parts.results).label(
                parts.hint,
                " ↑↓ navigate   Tab complete   →/Tab accept   Enter jump   Ctrl-W del-component   Esc cancel "@,
                Style::plain().fg(Color::DarkGray).dim(),
            )
        }
    }
}

fn line_of_entry(e: &SpotlightEntry, selected: bool) -> (r: Line)
    ensures
        r@ == entry_line(*e, selected),
{
    let ground = entry_ground(selected);
    let mut line = Line::new();
    let arrow: &str = if selected {
        "  ▸ "
    } else {
        "    "
    };
    line.push_str(arrow, Style::plain().fg(Color::Cyan).bold().bg(ground));
    line.push_str(&e.path, entry_style(e.is_dir, ground));
    if e.is_dir {
        line.push_str("/", Style::plain().fg(Color::Blue).bg(ground));
    }
    assert(line@ =~= entry_line(*e, selected));
    line
}

impl SpotlightState {
    fn draw_results(&self, c: &mut Canvas, results: Rect)
        ensures
            final(c)@ == self@.results_on(old(c)@, results),
    {
        let ghost v = self@;
        let ghost p = c@;
        if self.candidates.len() == 0 {
            c.label(
                results,
                "    (no matches)",
                Style::plain().fg(Color::DarkGray).add_modifier(Modifiers::just_italic()),
            );
            return;
        }
        let n: usize = min16(results.height, ENTRIES_SHOWN) as usize;
        let from: usize = if self.selected >= n {
            if n == 0 {
                if self.selected >= self.candidates.len() {
                    return;
                }
                self.selected + 1
            } else {
                self.selected - (n - 1)
            }
        } else {
            0
        };
        assert(from == v.first_shown(results));
        let to = window_end(self.candidates.len(), from, n);
        let ghost shown = v.shown(results);
        assert(shown.len() == to - from);
        let mut i: usize = from;
        while i < to
            invariant
                from <= i <= to,
                to - from <= 8,
                to <= self.candidates@.len() || to == from,
                v == self@,
                from == v.first_shown(results),
                n == v.entries_shown(results),
                shown == v.shown(results),
                shown.len() == to - from,
                c@ == v.entries_on(p, results, (i - from) as nat),
            decreases to - i,
        {
            let selected = i == self.selected;
            let k: u16 = (i - from) as u16;
            let e = &self.candidates[i];
            assert(shown[k as int] == *e);
            let mut lines = no_lines();
            push_line(&mut lines, line_of_entry(e, selected));
            assert(line_views(lines@) =~= seq![entry_line(*e, selected)]);
            c.para(
                Rect::new(results.x, plus16(results.y, k), results.width, 1),
                lines,
                Style::plain().bg(entry_ground(selected)),
                false,
            );
            i = i + 1;
        }
    }

    /// Draws the picker.
    pub fn draw(&self, c: &mut Canvas, popup: Rect, parts: PickerParts)
        ensures
            final(c)@ == self@.picker_on(old(c)@, popup, parts),
    {
        c.boxed(
            popup,
            " Spotlight ",
            Style::plain().fg(Color::Cyan).bold(),
            Style::plain().fg(Color::Cyan),
        );
        if popup.inside().height < 4 {
            return;
        }
        let mut line = Line::new();
        line.push_str("  󰍉 ", Style::plain().fg(Color::Yellow).bold());
        line.push_str(" ", Style::plain());
        line.push_str(&self.input, Style::plain().fg(Color::White).bold());
        line.push_str("█", Style::plain().fg(Color::Yellow));
        let ghost typed = seq![
            sp("  󰍉 "@, Style::plain().fg(Color::Yellow).bold()),
            sp(" "@, Style::plain()),
            sp(self@.input, Style::plain().fg(Color::White).bold()),
            sp("█"@, Style::plain().fg(Color::Yellow)),
        ];
        assert(line@ =~= typed);
        c.line(parts.input, line);
        let rule = repeat_char('─', parts.divider.width as usize);
        c.label(parts.divider, &rule, Style::plain().fg(Color::DarkGray));
        self.draw_results(c, parts.results);
        c.label(
            parts.hint,
            " ↑↓ navigate   Tab complete   →/Tab accept   Enter jump   Ctrl-W del-component   Esc cancel ",
            Style::plain().fg(Color::DarkGray).dim(),
        );
    }
}

/// Where there is room for entries, the selected one is among those that are
/// shown.
pub proof fn selected_entry_is_shown(s: SpotlightView, results: Rect)
    requires
        s.selected < s.candidates.len(),
        results.height > 0,
    ensures
        s.first_shown(results) <= s.selected < s.first_shown(results) + s.shown(results).len(),
        s.shown(results)[s.selected - s.first_shown(results)] == s.candidates[s.selected as int],
        s.shown(results).len() <= results.height,
{
}

} // verus!
