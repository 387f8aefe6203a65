//! The editor.

use vstd::prelude::*;

use crate::binary64::{nearest_of, quotient, scaled, tenths, tenths_text, Double};
use crate::editor::file::{hint_text, title_text};
use crate::editor::{Editor, EditorPrompt, EditorView, PromptView};
use crate::layout::{minus16, plus16, Rect};
use crate::style::{line_views, sp, Color, Line, SpanView, Style};
use crate::text::{pad_end, padded_end};
use crate::tui::draw::panels::{line_of_text, text_line};
use crate::tui::draw::{no_lines, push_line, Canvas, Picture};
use crate::tui::navigate::{concat, concat3};

verus! {

/// The areas of the editor.
#[derive(Clone, Copy, Debug, PartialEq, Eq, Structural)]
pub struct EditorParts {
    pub title: Rect,
    pub body: Rect,
    pub hint: Rect,
}

/// The number of bytes of a megabyte.
pub const MEGABYTE: u64 = 1_048_576;

#[verifier::allow_in_spec]
pub fn title_style() -> Style
    returns
        Style::plain().bg(Color::Rgb(20, 30, 50)).fg(Color::White).bold(),
{
    Style::plain().bg(Color::Rgb(20, 30, 50)).fg(Color::White).bold()
}

/// The last row of the screen.
#[verifier::allow_in_spec]
pub fn last_row(area: Rect) -> Rect
    returns
        Rect::new(area.x, plus16(area.y, minus16(area.height, 1)), area.width, 1),
{
    Rect::new(area.x, plus16(area.y, minus16(area.height, 1)), area.width, 1)
}

/// The style of a choice.
#[verifier::allow_in_spec]
pub fn choice_style(selected: bool) -> Style
    returns
        (if selected {
            Style::plain().bg(Color::Yellow).fg(Color::Black).bold()
        } else {
            Style::plain().fg(Color::Yellow)
        }),
{
    if selected {
        Style::plain().bg(Color::Yellow).fg(Color::Black).bold()
    } else {
        Style::plain().fg(Color::Yellow)
    }
}

/// A size in megabytes with one decimal.
pub open spec fn megabytes_text(size: u64) -> Seq<char> {
    tenths_text(scaled(quotient(nearest_of(size as nat), nearest_of(MEGABYTE as nat)), 10))
}

pub open spec fn unsaved_lines(selection: u8) -> Seq<Seq<SpanView>> {
    seq![
        Seq::empty(),
        text_line("  This file has unsaved changes."@),
        Seq::empty(),
        seq![
            sp("  "@, Style::plain()),
            sp(" Save & Close "@, choice_style(selection == 0)),
            sp("  "@, Style::plain()),
            sp(" Discard "@, choice_style(selection == 1)),
            sp("  "@, Style::plain()),
            sp(" Cancel "@, choice_style(selection == 2)),
        ],
    ]
}

pub open spec fn large_lines(selection: u8, size: u64) -> Seq<Seq<SpanView>> {
    seq![
        Seq::empty(),
        text_line(
            "  This file is "@ + megabytes_text(size)
                + " MB or appears to contain binary data."@,
        ),
        text_line("  Editing it may be slow or destructive."@),
        Seq::empty(),
        seq![
            sp("  "@, Style::plain()),
            sp(" Open anyway "@, choice_style(selection == 0)),
            sp("    "@, Style::plain()),
            sp(" Cancel "@, choice_style(selection == 1)),
        ],
    ]
}

/// With a question of the editor in a box.
pub open spec fn question_on(
    p: Picture,
    popup: Rect,
    title: Seq<char>,
    color: Color,
    lines: Seq<Seq<SpanView>>,
) -> Picture {
    p.boxed(popup, sp(title, Style::plain()), Style::plain().fg(color)).para(
        popup.inside(),
        lines,
        Style::plain(),
        false,
    )
}

/// With a prompt of the editor: in the last row of the screen, or in a box.
pub open spec fn prompt_on(p: Picture, prompt: PromptView, area: Rect, popup: Rect) -> Picture {
    match prompt {
        PromptView::Message { text } => p.label(
            last_row(area),
            " "@ + text + " "@,
            Style::plain().bg(Color::DarkGray).fg(Color::White).bold(),
        ),
        PromptView::GotoLine { input } => p.line(
            last_row(area),
            seq![
                sp(" Goto line: "@, Style::plain().bg(Color::Yellow).fg(Color::Black)),
                sp(" "@, Style::plain()),
                sp(input, Style::plain().fg(Color::White).bold()),
                sp("█"@, Style::plain().fg(Color::Yellow)),
            ],
        ),
        PromptView::UnsavedClose { selection } => question_on(
            p,
            popup,
            " Unsaved changes "@,
            Color::Yellow,
            unsaved_lines(selection),
        ),
        PromptView::LargeFile { selection, size } => question_on(
            p,
            popup,
            " Large or binary file "@,
            Color::Red,
            large_lines(selection, size),
        ),
    }
}

impl EditorView {
    /// With the editor, whose rows are `lines`.
    pub open spec fn editor_on(
        self,
        p: Picture,
        area: Rect,
        parts: EditorParts,
        popup: Rect,
        lines: Seq<Seq<SpanView>>,
    ) -> Picture {
        let q = p.label(
            parts.title,
            " "@ + padded_end(title_text(self), parts.title.width as nat),
            title_style(),
        ).para(
            parts.body,
            lines,
            Style::plain().bg(Color::Rgb(15, 15, 25)),
            false,
        ).label(parts.hint, hint_text(), Style::plain().fg(Color::DarkGray));
        match self.prompt {
            Some(prompt) => prompt_on(q, prompt, area, popup),
            None => q,
        }
    }
}

fn megabytes(size: u64) -> (r: String)
    ensures
        r@ == megabytes_text(size),
{
    tenths(Double::of(size).div(Double::of(MEGABYTE)).scale(10))
}

fn lines_unsaved(selection: u8) -> (r: Vec<Line>)
    ensures
        line_views(r@) == unsaved_lines(selection),
{
    let mut lines = no_lines();
    push_line(&mut lines, Line::new());
    push_line(&mut lines, line_of_text("  This file has unsaved changes."));
    push_line(&mut lines, Line::new());
    let mut line = Line::new();
    line.push_str("  ", Style::plain());
    line.push_str(" Save & Close ", choice_style(selection == 0));
    line.push_str("  ", Style::plain());
    line.push_str(" Discard ", choice_style(selection == 1));
    line.push_str("  ", Style::plain());
    line.push_str(" Cancel ", choice_style(selection == 2));
    assert(line@ =~= unsaved_lines(selection)[3]);
    push_line(&mut lines, line);
    assert(line_views(lines@) =~= unsaved_lines(selection));
    lines
}

fn lines_large(selection: u8, size: u64) -> (r: Vec<Line>)
    ensures
        line_views(r@) == large_lines(selection, size),
{
    let mut lines = no_lines();
    push_line(&mut lines, Line::new());
    let mb = megabytes(size);
    push_line(
        &mut lines,
        line_of_text(
            &concat3("  This file is ", &mb, " MB or appears to contain binary data."),
        ),
    );
    push_line(&mut lines, line_of_text("  Editing it may be slow or destructive."));
    push_line(&mut lines, Line::new());
    let mut line = Line::new();
    line.push_str("  ", Style::plain());
    line.push_str(" Open anyway ", choice_style(selection == 0));
    line.push_str("    ", Style::plain());
    line.push_str(" Cancel ", choice_style(selection == 1));
    assert(line@ =~= large_lines(selection, size)[4]);
    push_line(&mut lines, line);
    assert(line_views(lines@) =~= large_lines(selection, size));
    lines
}

pub(crate) fn draw_question(c: &mut Canvas, popup: Rect, title: &str, color: Color, lines: Vec<Line>)
    ensures
        final(c)@ == question_on(old(c)@, popup, title@, color, line_views(lines@)),
{
    c.boxed(popup, title, Style::plain(), Style::plain().fg(color));
    c.para(popup.inside(), lines, Style::plain(), false);
}

fn draw_prompt(c: &mut Canvas, prompt: &EditorPrompt, area: Rect, popup: Rect)
    ensures
        final(c)@ == prompt_on(old(c)@, prompt@, area, popup),
{
    match prompt {
        EditorPrompt::Message { text } => {
            c.label(
                last_row(area),
                &concat3(" ", text, " "),
                Style::plain().bg(Color::DarkGray).fg(Color::White).bold(),
            );
        },
        EditorPrompt::GotoLine { input } => {
            let mut line = Line::new();
            line.push_str(" Goto line: ", Style::plain().bg(Color::Yellow).fg(Color::Black));
            line.push_str(" ", Style::plain());
            line.push_str(input, Style::plain().fg(Color::White).bold());
            line.push_str("█", Style::plain().fg(Color::Yellow));
            let ghost whole = seq![
                sp(" Goto line: "@, Style::plain().bg(Color::Yellow).fg(Color::Black)),
                sp(" "@, Style::plain()),
                sp(input@, Style::plain().fg(Color::White).bold()),
                sp("█"@, Style::plain().fg(Color::Yellow)),
            ];
            assert(line@ =~= whole);
            c.line(last_row(area), line);
        },
        EditorPrompt::UnsavedClose { selection } => {
            draw_question(
                c,
                popup,
                " Unsaved changes ",
                Color::Yellow,
                lines_unsaved(*selection),
            );
        },
        EditorPrompt::LargeFile { selection, size } => {
            draw_question(
                c,
                popup,
                " Large or binary file ",
                Color::Red,
                lines_large(*selection, *size),
            );
        },
    }
}

impl Editor {
    /// Draws the editor, whose rows are `lines`.
    pub fn draw(
        &self,
        c: &mut Canvas,
        area: Rect,
        parts: EditorParts,
        popup: Rect,
        lines: Vec<Line>,
    )
        ensures
            final(c)@ == self@.editor_on(old(c)@, area, parts, popup, line_views(lines@)),
    {
        let title = pad_end(&self.title(), parts.title.width as usize);
        c.label(parts.title, &concat(" ", &title), title_style());
        c.para(parts.body, lines, Style::plain().bg(Color::Rgb(15, 15, 25)), false);
        c.label(parts.hint, self.hint(), Style::plain().fg(Color::DarkGray));
        if let Some(prompt) = &self.prompt {
            draw_prompt(c, prompt, area, popup);
        }
    }

    /// The rows of the editor on a part of the screen.
    pub fn body_rows(&self, body: Rect) -> (r: Vec<Line>)
        requires
            self@.wf(),
        ensures
            line_views(r@) == self@.text_shown(body.height, body.width),
    {
        self.view_lines(body.height, body.width)
    }
}

} // verus!
