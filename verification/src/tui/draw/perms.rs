//! The permissions.

use vstd::prelude::*;

use crate::layout::Rect;
use crate::style::{line_views, one, sp, Color, Line, Modifiers, SpanView, Style};
use crate::text::{decimal, decimal_text, number, number_text, push_char};
use crate::tui::draw::panels::{line_of_text, text_line};
use crate::tui::draw::{no_lines, push_line, Canvas, Picture};
use crate::tui::navigate::{concat, concat3};
use crate::tui::perms::{
    bit_of_cell, bit_on, cell_bit, mode_string, mode_text, PermsState, PermsView,
};

verus! {

/// Remarks in the panel.
#[verifier::allow_in_spec]
pub fn quiet() -> Style
    returns
        Style::plain().fg(Color::DarkGray),
{
    Style::plain().fg(Color::DarkGray)
}

/// Facts in the panel.
#[verifier::allow_in_spec]
pub fn loud(color: Color) -> Style
    returns
        Style::plain().fg(color).bold(),
{
    Style::plain().fg(color).bold()
}

/// A style, and how it looks under the cursor.
#[verifier::allow_in_spec]
pub fn under_cursor(style: Style, at_cursor: bool) -> Style
    returns
        (if at_cursor {
            style.bg(Color::Rgb(40, 40, 70)).bold()
        } else {
            style
        }),
{
    if at_cursor {
        style.bg(Color::Rgb(40, 40, 70)).bold()
    } else {
        style
    }
}

/// The style of a permission.
#[verifier::allow_in_spec]
pub fn cell_style(on: bool, at_cursor: bool) -> Style
    returns
        under_cursor(
            Style::plain().fg(
                if on {
                    Color::Green
                } else {
                    Color::DarkGray
                },
            ),
            at_cursor,
        ),
{
    under_cursor(
        Style::plain().fg(
            if on {
                Color::Green
            } else {
                Color::DarkGray
            },
        ),
        at_cursor,
    )
}

/// The style of a button. Without root, only the last can be pressed.
#[verifier::allow_in_spec]
pub fn button_style(cell: usize, root: bool, at_cursor: bool) -> Style
    returns
        under_cursor(
            if !root && cell != 14 {
                Style::plain().fg(Color::DarkGray)
            } else if cell == 14 {
                Style::plain().fg(Color::Yellow)
            } else {
                Style::plain().fg(Color::Green).bold()
            },
            at_cursor,
        ),
{
    under_cursor(
        if !root && cell != 14 {
            Style::plain().fg(Color::DarkGray)
        } else if cell == 14 {
            Style::plain().fg(Color::Yellow)
        } else {
            Style::plain().fg(Color::Green).bold()
        },
        at_cursor,
    )
}

/// A name, and the number behind it.
pub open spec fn named(name: Seq<char>, id: u32) -> Seq<char> {
    name + " ("@ + decimal_text(id as nat) + ")"@
}

impl PermsView {
    pub open spec fn owner_line(self) -> Seq<SpanView> {
        seq![
            sp("  Owner: "@, quiet()),
            sp(named(self.owner_name, self.uid), loud(Color::White)),
            sp("    "@, Style::plain()),
            sp("Group: "@, quiet()),
            sp(named(self.group_name, self.gid), loud(Color::White)),
        ]
    }

    pub open spec fn mode_line(self) -> Seq<SpanView> {
        seq![
            sp("  Mode:  "@, quiet()),
            sp(
                mode_text(self.mode, self.is_dir) + "  ("@ + number_text(self.mode as nat, 8)
                    + ")"@,
                loud(Color::Yellow),
            ),
        ]
    }

    /// Whether a permission is on.
    pub open spec fn cell_on(self, cell: nat) -> bool {
        bit_on(self.mode, cell_bit(cell))
    }

    /// A permission of the grid, with its letter.
    pub open spec fn cell_span(self, cell: nat, letter: char) -> SpanView {
        sp(
            if self.cell_on(cell) {
                seq!['[', letter, ']']
            } else {
                "[ ]"@
            },
            cell_style(self.cell_on(cell), cell == self.cursor),
        )
    }

    /// The three permissions from `cell` on.
    pub open spec fn grid_line(self, label: Seq<char>, cell: nat) -> Seq<SpanView> {
        seq![
            sp("  "@, Style::plain()),
            sp(label, Style::plain().fg(Color::Cyan)),
            self.cell_span(cell, 'r'),
            sp(" "@, Style::plain()),
            self.cell_span(cell + 1, 'w'),
            sp(" "@, Style::plain()),
            self.cell_span(cell + 2, 'x'),
            sp(" "@, Style::plain()),
        ]
    }

    /// A special bit.
    pub open spec fn special_span(self, cell: nat, label: Seq<char>) -> SpanView {
        sp(
            (if self.cell_on(cell) {
                "[x] "@
            } else {
                "[ ] "@
            }) + label + "  "@,
            cell_style(self.cell_on(cell), cell == self.cursor),
        )
    }

    pub open spec fn special_line(self) -> Seq<SpanView> {
        seq![
            sp("  Special  "@, Style::plain()),
            self.special_span(9, "SUID"@),
            self.special_span(10, "SGID"@),
            self.special_span(11, "Sticky"@),
        ]
    }

    /// A button.
    pub open spec fn button_span(self, cell: usize, label: Seq<char>, root: bool) -> SpanView {
        sp(label, button_style(cell, root, cell == self.cursor))
    }

    pub open spec fn button_line(self, root: bool) -> Seq<SpanView> {
        seq![
            sp("  "@, Style::plain()),
            self.button_span(12, "[ Apply ]"@, root),
            sp("  "@, Style::plain()),
            self.button_span(13, "[ Apply Recursively ]"@, root),
            sp("  "@, Style::plain()),
            self.button_span(14, "[ Cancel ]"@, root),
            sp("  "@, Style::plain()),
        ]
    }

    /// The lines of the panel.
    pub open spec fn perms_lines(self, root: bool) -> Seq<Seq<SpanView>> {
        let head = seq![
            self.owner_line(),
            self.mode_line(),
            Seq::empty(),
            self.grid_line("Owner "@, 0),
            self.grid_line("Group "@, 3),
            self.grid_line("Other "@, 6),
            Seq::empty(),
            self.special_line(),
            Seq::empty(),
            self.button_line(root),
        ];
        let note = if root {
            head
        } else {
            head.push(
                one(
                    "  (Apply requires sudo/root — only Cancel is available)"@,
                    Style::plain().fg(Color::Red).add_modifier(Modifiers::just_italic()),
                ),
            )
        };
        note.push(Seq::empty()).push(
            one(
                "  Arrows: navigate   Space: toggle   Enter: activate   Esc: cancel"@,
                quiet(),
            ),
        )
    }

    /// The lines of the question whether to apply to everything below.
    pub open spec fn confirm_lines(self) -> Seq<Seq<SpanView>> {
        seq![
            Seq::empty(),
            text_line(
                "  Apply mode "@ + number_text(self.mode as nat, 8) + " to ALL entries under:"@,
            ),
            text_line("    "@ + self.path),
            Seq::empty(),
            seq![
                sp("    "@, Style::plain()),
                sp(" Yes, apply "@, yes_style(self.confirm_cursor == 0)),
                sp("    "@, Style::plain()),
                sp(" Cancel "@, no_style(self.confirm_cursor == 1)),
            ],
        ]
    }

    /// With the permissions, and the question in front where it is asked.
    pub open spec fn perms_on(self, p: Picture, popup: Rect, confirm: Rect, root: bool) -> Picture {
        let q = p.boxed(
            popup,
            sp(" Permissions: "@ + self.path + " "@, loud(Color::Cyan)),
            Style::plain().fg(Color::Cyan),
        ).para(popup.inside(), self.perms_lines(root), Style::plain(), true);
        if self.confirm_recursive {
            q.boxed(
                confirm,
                sp(" Confirm recursive chmod "@, loud(Color::Red)),
                Style::plain().fg(Color::Red),
            ).para(confirm.inside(), self.confirm_lines(), Style::plain(), false)
        } else {
            q
        }
    }
}

#[verifier::allow_in_spec]
pub fn yes_style(selected: bool) -> Style
    returns
        (if selected {
            Style::plain().bg(Color::Red).fg(Color::White).bold()
        } else {
            Style::plain().fg(Color::Red)
        }),
{
    if selected {
        Style::plain().bg(Color::Red).fg(Color::White).bold()
    } else {
        Style::plain().fg(Color::Red)
    }
}

#[verifier::allow_in_spec]
pub fn no_style(selected: bool) -> Style
    returns
        (if selected {
            Style::plain().bg(Color::Green).fg(Color::Black).bold()
        } else {
            Style::plain().fg(Color::Green)
        }),
{
    if selected {
        Style::plain().bg(Color::Green).fg(Color::Black).bold()
    } else {
        Style::plain().fg(Color::Green)
    }
}

fn name_and_number(name: &str, id: u32) -> (r: String)
    ensures
        r@ == named(name@, id),
{
    let mut s = concat(name, " (");
    s.append(&decimal(id as u64));
    s.append(")");
    s
}

impl PermsState {
    fn is_on(&self, cell: usize) -> (r: bool)
        ensures
            r == self@.cell_on(cell as nat),
    {
        self.mode & bit_of_cell(cell) != 0
    }

    fn head_lines(&self, lines: &mut Vec<Line>)
        ensures
            line_views(final(lines)@) == line_views(old(lines)@).push(self@.owner_line()).push(
                self@.mode_line(),
            ),
    {
        let mut line = Line::new();
        line.push_str("  Owner: ", quiet());
        line.push(name_and_number(&self.owner_name, self.uid), loud(Color::White));
        line.push_str("    ", Style::plain());
        line.push_str("Group: ", quiet());
        line.push(name_and_number(&self.group_name, self.gid), loud(Color::White));
        assert(line@ =~= self@.owner_line());
        push_line(lines, line);
        let mut text = mode_string(self.mode, self.is_dir);
        text.append("  (");
        text.append(&number(self.mode as u128, 8));
        text.append(")");
        let mut line = Line::new();
        line.push_str("  Mode:  ", quiet());
        line.push(text, loud(Color::Yellow));
        assert(line@ =~= self@.mode_line());
        push_line(lines, line);
    }

    fn push_cell(&self, line: &mut Line, cell: usize, letter: char)
        ensures
            final(line)@ == old(line)@.push(self@.cell_span(cell as nat, letter)).push(
                sp(" "@, Style::plain()),
            ),
    {
        let on = self.is_on(cell);
        let mut text = String::new();
        if on {
            push_char(&mut text, '[');
            push_char(&mut text, letter);
            push_char(&mut text, ']');
            assert(text@ =~= seq!['[', letter, ']']);
        } else {
            text = "[ ]".to_owned();
        }
        line.push(text, cell_style(on, cell == self.cursor));
        line.push_str(" ", Style::plain());
    }

    fn line_of_cells(&self, label: &str, cell: usize) -> (r: Line)
        requires
            cell < 12,
        ensures
            r@ == self@.grid_line(label@, cell as nat),
    {
        let mut line = Line::new();
        line.push_str("  ", Style::plain());
        line.push_str(label, Style::plain().fg(Color::Cyan));
        self.push_cell(&mut line, cell, 'r');
        self.push_cell(&mut line, cell + 1, 'w');
        self.push_cell(&mut line, cell + 2, 'x');
        assert(line@ =~= self@.grid_line(label@, cell as nat));
        line
    }

    fn push_special(&self, line: &mut Line, cell: usize, label: &str)
        ensures
            final(line)@ == old(line)@.push(self@.special_span(cell as nat, label@)),
    {
        let on = self.is_on(cell);
        let mark: &str = if on {
            "[x] "
        } else {
            "[ ] "
        };
        line.push(concat3(mark, label, "  "), cell_style(on, cell == self.cursor));
    }

    fn line_of_specials(&self) -> (r: Line)
        ensures
            r@ == self@.special_line(),
    {
        let mut line = Line::new();
        line.push_str("  Special  ", Style::plain());
        self.push_special(&mut line, 9, "SUID");
        self.push_special(&mut line, 10, "SGID");
        self.push_special(&mut line, 11, "Sticky");
        assert(line@ =~= self@.special_line());
        line
    }

    fn push_button(&self, line: &mut Line, cell: usize, label: &str, root: bool)
        ensures
            final(line)@ == old(line)@.push(self@.button_span(cell, label@, root)).push(
                sp("  "@, Style::plain()),
            ),
    {
        line.push_str(label, button_style(cell, root, cell == self.cursor));
        line.push_str("  ", Style::plain());
    }

    fn line_of_buttons(&self, root: bool) -> (r: Line)
        ensures
            r@ == self@.button_line(root),
    {
        let mut line = Line::new();
        line.push_str("  ", Style::plain());
        self.push_button(&mut line, 12, "[ Apply ]", root);
        self.push_button(&mut line, 13, "[ Apply Recursively ]", root);
        self.push_button(&mut line, 14, "[ Cancel ]", root);
        assert(line@ =~= self@.button_line(root));
        line
    }

    fn panel_lines(&self, root: bool) -> (r: Vec<Line>)
        ensures
            line_views(r@) == self@.perms_lines(root),
    {
        let mut lines = no_lines();
        self.head_lines(&mut lines);
        push_line(&mut lines, Line::new());
        push_line(&mut lines, self.line_of_cells("Owner ", 0));
        push_line(&mut lines, self.line_of_cells("Group ", 3));
        push_line(&mut lines, self.line_of_cells("Other ", 6));
        push_line(&mut lines, Line::new());
        push_line(&mut lines, self.line_of_specials());
        push_line(&mut lines, Line::new());
        push_line(&mut lines, self.line_of_buttons(root));
        if !root {
            push_line(
                &mut lines,
                Line::of(
                    "  (Apply requires sudo/root — only Cancel is available)",
                    Style::plain().fg(Color::Red).add_modifier(Modifiers::just_italic()),
                ),
            );
        }
        push_line(&mut lines, Line::new());
        push_line(
            &mut lines,
            Line::of(
                "  Arrows: navigate   Space: toggle   Enter: activate   Esc: cancel",
                quiet(),
            ),
        );
        assert(line_views(lines@) =~= self@.perms_lines(root));
        lines
    }

    fn question_lines(&self) -> (r: Vec<Line>)
        ensures
            line_views(r@) == self@.confirm_lines(),
    {
        let mut lines = no_lines();
        push_line(&mut lines, Line::new());
        let octal = number(self.mode as u128, 8);
        push_line(
            &mut lines,
            line_of_text(&concat3("  Apply mode ", &octal, " to ALL entries under:")),
        );
        push_line(&mut lines, line_of_text(&concat("    ", &self.path)));
        push_line(&mut lines, Line::new());
        let mut line = Line::new();
        line.push_str("    ", Style::plain());
        line.push_str(" Yes, apply ", yes_style(self.confirm_cursor == 0));
        line.push_str("    ", Style::plain());
        line.push_str(" Cancel ", no_style(self.confirm_cursor == 1));
        let ghost choices = seq![
            sp("    "@, Style::plain()),
            sp(" Yes, apply "@, yes_style(self@.confirm_cursor == 0)),
            sp("    "@, Style::plain()),
            sp(" Cancel "@, no_style(self@.confirm_cursor == 1)),
        ];
        assert(line@ =~= choices);
        push_line(&mut lines, line);
        assert(line_views(lines@) =~= self@.confirm_lines());
        lines
    }

    /// Draws the permissions.
    pub fn draw(&self, c: &mut Canvas, popup: Rect, confirm: Rect, root: bool)
        ensures
            final(c)@ == self@.perms_on(old(c)@, popup, confirm, root),
    {
        c.boxed(
            popup,
            &concat3(" Permissions: ", &self.path, " "),
            loud(Color::Cyan),
            Style::plain().fg(Color::Cyan),
        );
        c.para(popup.inside(), self.panel_lines(root), Style::plain(), true);
        if self.confirm_recursive {
            c.boxed(
                confirm,
                " Confirm recursive chmod ",
                loud(Color::Red),
                Style::plain().fg(Color::Red),
            );
            c.para(confirm.inside(), self.question_lines(), Style::plain(), false);
        }
    }
}

} // verus!
