//! The popup that makes a file or a directory.

use vstd::prelude::*;

use crate::layout::Rect;
use crate::style::{line_views, one, sp, Color, Line, SpanView, Style};
use crate::tui::draw::editor::{choice_style, draw_question, question_on};
use crate::tui::draw::{no_lines, push_line, Canvas, Picture};
use crate::tui::newitem::{Focus, NewItemState, NewItemView};

verus! {

/// The style of the name of a field.
#[verifier::allow_in_spec]
pub fn label_style(focused: bool) -> Style
    returns
        (if focused {
            Style::plain().fg(Color::Yellow).bold()
        } else {
            Style::plain()
        }),
{
    if focused {
        Style::plain().fg(Color::Yellow).bold()
    } else {
        Style::plain()
    }
}

/// A field: what it is for, what it holds, and the cursor where it is typed into.
pub open spec fn field_line(label: Seq<char>, value: Seq<char>, focused: bool) -> Seq<SpanView> {
    let s = seq![
        sp(label, label_style(focused)),
        sp(value, Style::plain().fg(Color::White)),
    ];
    if focused {
        s.push(sp("█"@, Style::plain().fg(Color::Yellow)))
    } else {
        s
    }
}

/// Why nothing was made.
pub open spec fn error_line(error: Option<Seq<char>>) -> Seq<SpanView> {
    match error {
        Some(why) => one("  "@ + why, Style::plain().fg(Color::Red)),
        None => Seq::empty(),
    }
}

/// What is done with the fields.
pub open spec fn choice_line(focus: Focus) -> Seq<SpanView> {
    seq![
        sp("  "@, Style::plain()),
        sp(" Create "@, choice_style(focus == Focus::Create)),
        sp("    "@, Style::plain()),
        sp(" Cancel "@, choice_style(focus == Focus::Cancel)),
    ]
}

impl NewItemView {
    pub open spec fn lines(self) -> Seq<Seq<SpanView>> {
        seq![
            field_line("  Name: "@, self.name, self.focus == Focus::Name),
            field_line("  Mode: "@, self.mode, self.focus == Focus::Mode),
            error_line(self.error),
            Seq::empty(),
            choice_line(self.focus),
        ]
    }

    pub open spec fn title(self) -> Seq<char> {
        if self.is_dir {
            " New directory "@
        } else {
            " New file "@
        }
    }

    /// With the popup.
    pub open spec fn item_on(self, p: Picture, popup: Rect) -> Picture {
        question_on(p, popup, self.title(), Color::Cyan, self.lines())
    }
}

fn line_of_field(label: &str, value: &str, focused: bool) -> (r: Line)
    ensures
        r@ == field_line(label@, value@, focused),
{
    let mut line = Line::new();
    line.push_str(label, label_style(focused));
    line.push_str(value, Style::plain().fg(Color::White));
    if focused {
        line.push_str("█", Style::plain().fg(Color::Yellow));
    }
    assert(line@ =~= field_line(label@, value@, focused));
    line
}

fn line_of_error(error: &Option<String>) -> (r: Line)
    ensures
        r@ == error_line(crate::text::text_opt(*error)),
{
    match error {
        Some(why) => {
            let mut s = "  ".to_owned();
            s.append(why);
            Line::of(&s, Style::plain().fg(Color::Red))
        },
        None => Line::new(),
    }
}

fn line_of_choices(focus: Focus) -> (r: Line)
    ensures
        r@ == choice_line(focus),
{
    let mut line = Line::new();
    line.push_str("  ", Style::plain());
    line.push_str(" Create ", choice_style(focus == Focus::Create));
    line.push_str("    ", Style::plain());
    line.push_str(" Cancel ", choice_style(focus == Focus::Cancel));
    assert(line@ =~= choice_line(focus));
    line
}

impl NewItemState {
    /// Draws the popup.
    pub fn draw(&self, c: &mut Canvas, popup: Rect)
        ensures
            final(c)@ == self@.item_on(old(c)@, popup),
    {
        let mut lines = no_lines();
        push_line(&mut lines, line_of_field("  Name: ", &self.name, self.focus == Focus::Name));
        push_line(&mut lines, line_of_field("  Mode: ", &self.mode, self.focus == Focus::Mode));
        push_line(&mut lines, line_of_error(&self.error));
        push_line(&mut lines, Line::new());
        push_line(&mut lines, line_of_choices(self.focus));
        assert(line_views(lines@) =~= self@.lines());
        let title: &str = if self.is_dir {
            " New directory "
        } else {
            " New file "
        };
        draw_question(c, popup, title, Color::Cyan, lines);
    }
}

} // verus!
