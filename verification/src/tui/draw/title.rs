//! The title bar.

use vstd::prelude::*;

use crate::cli::Mode;
use crate::layout::{min16, minus16, plus16, Rect};
use crate::style::{Color, Style};
use crate::tui::draw::{cut_tail, label_width, tail_cut, width_of, Canvas, Picture};
use crate::tui::navigate::concat3;
use crate::tui::{Action, App, AppView};

verus! {

/// The columns of the three buttons, and of the blanks between them.
pub const BUTTONS_WIDTH: u16 = 11;

/// The name of a mode.
pub open spec fn mode_text(mode: Mode) -> Seq<char> {
    match mode {
        Mode::Tree => "Tree"@,
        Mode::Bars => "Bars"@,
        Mode::Treemap => "Treemap"@,
        Mode::Flat => "Flat"@,
    }
}

pub(crate) fn mode_name(mode: Mode) -> (r: &'static str)
    ensures
        r@ == mode_text(mode),
{
    match mode {
        Mode::Tree => "Tree",
        Mode::Bars => "Bars",
        Mode::Treemap => "Treemap",
        Mode::Flat => "Flat",
    }
}

/// The label of a mode in the title bar.
pub open spec fn pill_text(mode: Mode) -> Seq<char> {
    " "@ + mode_text(mode) + " "@
}

#[verifier::allow_in_spec]
pub fn brand_style() -> Style
    returns
        Style::plain().bg(Color::Blue).fg(Color::White).bold(),
{
    Style::plain().bg(Color::Blue).fg(Color::White).bold()
}

#[verifier::allow_in_spec]
pub fn pill_style(active: bool) -> Style
    returns
        (if active {
            Style::plain().bg(Color::Cyan).fg(Color::Black).bold()
        } else {
            Style::plain().fg(Color::Cyan)
        }),
{
    if active {
        Style::plain().bg(Color::Cyan).fg(Color::Black).bold()
    } else {
        Style::plain().fg(Color::Cyan)
    }
}

/// The column behind a label and a blank.
pub open spec fn behind(x: u16, text: Seq<char>) -> u16 {
    plus16(x, plus16(width_of(text), 1))
}

/// With the label of a mode at column `x`, cut off where the bar ends.
pub open spec fn pill_on(p: Picture, area: Rect, current: Mode, mode: Mode, x: u16) -> Picture {
    let rect = Rect::new(
        x,
        area.y,
        min16(width_of(pill_text(mode)), minus16(area.width, minus16(x, area.x))),
        1,
    );
    p.label(rect, pill_text(mode), pill_style(current == mode)).clickable(
        rect,
        Action::SetMode(mode),
    )
}

/// With a button at column `x`.
pub open spec fn button_on(
    p: Picture,
    area: Rect,
    text: Seq<char>,
    color: Color,
    action: Action,
    x: u16,
) -> Picture {
    let rect = Rect::new(x, area.y, width_of(text), 1);
    p.label(rect, text, Style::plain().fg(color).bold()).clickable(rect, action)
}

/// With the three buttons at the right end of the bar, where it is wide enough.
pub open spec fn buttons_on(p: Picture, area: Rect) -> Picture {
    if area.width > BUTTONS_WIDTH + 2 {
        let x1 = plus16(area.x, minus16(area.width, BUTTONS_WIDTH));
        let x2 = behind(x1, "[?]"@);
        let x3 = behind(x2, "[⚙]"@);
        let p1 = button_on(p, area, "[?]"@, Color::Yellow, Action::OpenHelp, x1);
        let p2 = button_on(p1, area, "[⚙]"@, Color::Cyan, Action::OpenSettings, x2);
        button_on(p2, area, "[✕]"@, Color::Red, Action::Quit, x3)
    } else {
        p
    }
}

/// With a path between column `start` and the buttons.
pub open spec fn path_on(p: Picture, area: Rect, path: Seq<char>, start: u16) -> Picture {
    let end = plus16(area.x, minus16(area.width, (BUTTONS_WIDTH + 2) as u16));
    if end > start {
        p.label(
            Rect::new(start, area.y, (end - start) as u16, 1),
            tail_cut(path, (end - start) as nat),
            Style::plain().bold(),
        )
    } else {
        p
    }
}

impl AppView {
    /// With the title bar: the name of the program, the modes, the buttons and
    /// the path of the directory.
    pub open spec fn title_on(self, p: Picture, area: Rect) -> Picture {
        let m = self.config.mode;
        let x0 = behind(area.x, " diskvis "@);
        let x1 = behind(x0, pill_text(Mode::Tree));
        let x2 = behind(x1, pill_text(Mode::Bars));
        let x3 = behind(x2, pill_text(Mode::Treemap));
        let x4 = behind(x3, pill_text(Mode::Flat));
        let brand = Rect::new(area.x, area.y, width_of(" diskvis "@), 1);
        let p0 = p.label(brand, " diskvis "@, brand_style());
        let p1 = pill_on(p0, area, m, Mode::Tree, x0);
        let p2 = pill_on(p1, area, m, Mode::Bars, x1);
        let p3 = pill_on(p2, area, m, Mode::Treemap, x2);
        let p4 = pill_on(p3, area, m, Mode::Flat, x3);
        path_on(buttons_on(p4, area), area, self.root.path@, plus16(x4, 1))
    }
}

/// The column behind a label and a blank.
fn step_over(x: u16, text: &str) -> (r: u16)
    ensures
        r == behind(x, text@),
{
    plus16(x, plus16(label_width(text), 1))
}

fn draw_pill(c: &mut Canvas, area: Rect, current: Mode, mode: Mode, x: u16) -> (r: u16)
    ensures
        final(c)@ == pill_on(old(c)@, area, current, mode, x),
        r == behind(x, pill_text(mode)),
{
    let text = concat3(" ", mode_name(mode), " ");
    let rect = Rect::new(
        x,
        area.y,
        min16(label_width(&text), minus16(area.width, minus16(x, area.x))),
        1,
    );
    c.label(rect, &text, pill_style(current == mode));
    c.hit(rect, Action::SetMode(mode));
    step_over(x, &text)
}

fn draw_button(
    c: &mut Canvas,
    area: Rect,
    text: &str,
    color: Color,
    action: Action,
    x: u16,
) -> (r: u16)
    ensures
        final(c)@ == button_on(old(c)@, area, text@, color, action, x),
        r == behind(x, text@),
{
    let rect = Rect::new(x, area.y, label_width(text), 1);
    c.label(rect, text, Style::plain().fg(color).bold());
    c.hit(rect, action);
    step_over(x, text)
}

fn draw_buttons(c: &mut Canvas, area: Rect)
    ensures
        final(c)@ == buttons_on(old(c)@, area),
{
    if area.width > BUTTONS_WIDTH + 2 {
        let x1 = plus16(area.x, minus16(area.width, BUTTONS_WIDTH));
        let x2 = draw_button(c, area, "[?]", Color::Yellow, Action::OpenHelp, x1);
        let x3 = draw_button(c, area, "[⚙]", Color::Cyan, Action::OpenSettings, x2);
        let _ = draw_button(c, area, "[✕]", Color::Red, Action::Quit, x3);
    }
}

fn draw_path(c: &mut Canvas, area: Rect, path: &str, start: u16)
    ensures
        final(c)@ == path_on(old(c)@, area, path@, start),
{
    let end = plus16(area.x, minus16(area.width, BUTTONS_WIDTH + 2));
    if end > start {
        let width: u16 = end - start;
        let text = cut_tail(path, width as usize);
        c.label(Rect::new(start, area.y, width, 1), &text, Style::plain().bold());
    }
}

impl App {
    /// Draws the title bar.
    pub fn draw_title(&self, c: &mut Canvas, area: Rect)
        ensures
            final(c)@ == self@.title_on(old(c)@, area),
    {
        let m = self.config.mode;
        let brand = " diskvis ";
        c.label(Rect::new(area.x, area.y, label_width(brand), 1), brand, brand_style());
        let x0 = step_over(area.x, brand);
        let x1 = draw_pill(c, area, m, Mode::Tree, x0);
        let x2 = draw_pill(c, area, m, Mode::Bars, x1);
        let x3 = draw_pill(c, area, m, Mode::Treemap, x2);
        let x4 = draw_pill(c, area, m, Mode::Flat, x3);
        draw_buttons(c, area);
        draw_path(c, area, &self.root.path, plus16(x4, 1));
    }
}

} // verus!
