//! The whole screen.

use vstd::prelude::*;

use crate::editor::{Editor, EditorView, PromptView};
use crate::layout::{
    extent, has_room, offset, percent_of, percents, runs, settles, split, wished, Constraint, Rect,
};
use crate::style::{line_views, Line, SpanView};
use crate::tui::draw::editor::EditorParts;
use crate::tui::draw::panels::{draw_help, help_lines, panel_on};
use crate::tui::draw::picker::{picker_rect, PickerParts};
use crate::tui::draw::{no_lines, widget_views, Canvas, Picture, Widget, WidgetView};
use crate::tui::{App, AppView, Env, Screen};

verus! {

/// The areas of the screen.
#[derive(Clone, Copy, Debug, PartialEq, Eq, Structural)]
pub struct Parts {
    pub title: Rect,
    pub body: Rect,
    pub path: Rect,
    pub filter: Rect,
    pub status: Rect,
    pub status_top: Rect,
    pub status_bottom: Rect,
    pub editor: EditorParts,
}

/// What the bars and the rows ask for.
pub open spec fn main_wishes(filter: bool) -> Seq<Constraint> {
    seq![
        Constraint::Length(1),
        Constraint::Min(1),
        Constraint::Length(1),
        Constraint::Length(
            if filter {
                1
            } else {
                0
            },
        ),
        Constraint::Length(2),
    ]
}

/// What the rows of the status bar ask for.
pub open spec fn status_wishes() -> Seq<Constraint> {
    seq![Constraint::Length(1), Constraint::Length(1)]
}

/// What the parts of the editor ask for.
pub open spec fn editor_wishes() -> Seq<Constraint> {
    seq![Constraint::Length(1), Constraint::Min(1), Constraint::Length(1)]
}

/// What the parts of the picker ask for.
pub open spec fn picker_wishes() -> Seq<Constraint> {
    seq![
        Constraint::Length(1),
        Constraint::Length(1),
        Constraint::Min(1),
        Constraint::Length(1),
    ]
}

/// A part in the middle, with margins on both sides.
pub open spec fn centered_wishes(percent: u16) -> Seq<Constraint> {
    seq![
        Constraint::Percentage(((100 - percent) / 2) as u16),
        Constraint::Percentage(percent),
        Constraint::Percentage(((100 - percent) / 2) as u16),
    ]
}

/// Whether these are the areas of a screen.
pub open spec fn laid_out(parts: Parts, area: Rect, filter: bool) -> bool {
    &&& settles(
        seq![parts.title, parts.body, parts.path, parts.filter, parts.status],
        area,
        true,
        main_wishes(filter),
    )
    &&& settles(
        seq![parts.status_top, parts.status_bottom],
        parts.status,
        true,
        status_wishes(),
    )
    &&& settles(
        seq![parts.editor.title, parts.editor.body, parts.editor.hint],
        area,
        true,
        editor_wishes(),
    )
}

/// A row, or several, of an area.
pub open spec fn rows_of(area: Rect, from: int, height: int) -> Rect {
    Rect { x: area.x, y: (area.y + from) as u16, width: area.width, height: height as u16 }
}

/// The areas of a screen that has room for all: one row each for the title, the
/// path and the filter, two for the status, and the rest for the rows.
pub open spec fn screen_parts(area: Rect, filter: bool) -> Parts {
    let f: int = if filter {
        1
    } else {
        0
    };
    let h = area.height as int;
    Parts {
        title: rows_of(area, 0, 1),
        body: rows_of(area, 1, h - 4 - f),
        path: rows_of(area, h - 3 - f, 1),
        filter: rows_of(area, h - 2 - f, f),
        status: rows_of(area, h - 2, 2),
        status_top: rows_of(area, h - 2, 1),
        status_bottom: rows_of(area, h - 1, 1),
        editor: EditorParts {
            title: rows_of(area, 0, 1),
            body: rows_of(area, 1, h - 2),
            hint: rows_of(area, h - 1, 1),
        },
    }
}

/// On a screen of six rows or more, everything has its place.
pub proof fn roomy_screen_has_its_parts(parts: Parts, area: Rect, filter: bool)
    requires
        area.fits(),
        area.height >= 6,
        laid_out(parts, area, filter),
    ensures
        parts == screen_parts(area, filter),
{
    let h = area.height as nat;
    let cs = main_wishes(filter);
    reveal_with_fuel(wished, 6);
    reveal_with_fuel(offset, 6);
    reveal_with_fuel(crate::layout::lengths, 6);
    assert(wished(cs, 5) <= h);
    assert(has_room(cs, h));
    let all = seq![parts.title, parts.body, parts.path, parts.filter, parts.status];
    assert(all[0] == parts.title && all[1] == parts.body && all[2] == parts.path && all[3]
        == parts.filter && all[4] == parts.status);
    assert(runs(all[0], area, true, offset(cs, 0, h), offset(cs, 1, h)));
    assert(runs(all[1], area, true, offset(cs, 1, h), offset(cs, 2, h)));
    assert(runs(all[2], area, true, offset(cs, 2, h), offset(cs, 3, h)));
    assert(runs(all[3], area, true, offset(cs, 3, h), offset(cs, 4, h)));
    assert(runs(all[4], area, true, offset(cs, 4, h), offset(cs, 5, h)));
    let es = editor_wishes();
    assert(wished(es, 3) <= h);
    assert(has_room(es, h));
    let eds = seq![parts.editor.title, parts.editor.body, parts.editor.hint];
    assert(eds[0] == parts.editor.title && eds[1] == parts.editor.body && eds[2]
        == parts.editor.hint);
    assert(runs(eds[0], area, true, offset(es, 0, h), offset(es, 1, h)));
    assert(runs(eds[1], area, true, offset(es, 1, h), offset(es, 2, h)));
    assert(runs(eds[2], area, true, offset(es, 2, h), offset(es, 3, h)));
    let ss = status_wishes();
    assert(parts.status.height == 2);
    assert(wished(ss, 2) <= 2);
    assert(has_room(ss, 2));
    let bars = seq![parts.status_top, parts.status_bottom];
    assert(bars[0] == parts.status_top && bars[1] == parts.status_bottom);
    assert(runs(bars[0], parts.status, true, offset(ss, 0, 2), offset(ss, 1, 2)));
    assert(runs(bars[1], parts.status, true, offset(ss, 1, 2), offset(ss, 2, 2)));
}

/// The part of an area in the middle of it.
pub open spec fn centered(percent_x: u16, percent_y: u16, area: Rect) -> Rect {
    let left = ((100 - percent_x) / 2) as nat;
    let top = ((100 - percent_y) / 2) as nat;
    let x0 = percent_of(left, area.width as nat);
    let x1 = percent_of(left + percent_x as nat, area.width as nat);
    let y0 = percent_of(top, area.height as nat);
    let y1 = percent_of(top + percent_y as nat, area.height as nat);
    Rect {
        x: (area.x + x0) as u16,
        y: (area.y + y0) as u16,
        width: (x1 - x0) as u16,
        height: (y1 - y0) as u16,
    }
}

/// The parts of the picker, where there is room for them.
pub open spec fn picker_parts(inner: Rect) -> PickerParts {
    let h = inner.height as int;
    PickerParts {
        input: rows_of(inner, 0, 1),
        divider: rows_of(inner, 1, 1),
        results: rows_of(inner, 2, h - 3),
        hint: rows_of(inner, h - 1, 1),
    }
}

fn three(percent: u16) -> (r: Vec<Constraint>)
    requires
        percent <= 100,
    ensures
        r@ == centered_wishes(percent),
{
    let margin: u16 = (100 - percent) / 2;
    let v: Vec<Constraint> = vec![
        Constraint::Percentage(margin),
        Constraint::Percentage(percent),
        Constraint::Percentage(margin),
    ];
    assert(v@ =~= centered_wishes(percent));
    v
}

proof fn lemma_middle(parts: Seq<Rect>, area: Rect, vertical: bool, percent: u16)
    requires
        percent <= 100,
        area.fits(),
        settles(parts, area, vertical, centered_wishes(percent)),
    ensures
        parts.len() == 3,
        parts[1].within(area),
        parts[1].fits(),
        ({
            let m = ((100 - percent) / 2) as nat;
            let e = extent(area, vertical);
            let from = percent_of(m, e);
            let to = percent_of(m + percent as nat, e);
            &&& from <= to <= e
            &&& runs(parts[1], area, vertical, from, to)
        }),
{
    let cs = centered_wishes(percent);
    let e = extent(area, vertical);
    let m = ((100 - percent) / 2) as nat;
    reveal_with_fuel(percents, 4);
    assert(percents(cs, 3) <= 100);
    assert(percents(cs, 1) == m);
    assert(percents(cs, 2) == m + percent as nat);
    let k = m + percent as nat;
    assert(e * m + 50 <= e * k + 50) by (nonlinear_arith)
        requires
            m <= k,
    ;
    assert((e * k + 50) / 100 <= e) by (nonlinear_arith)
        requires
            k <= 100,
    ;
    assert(runs(
        parts[1],
        area,
        vertical,
        percent_of(percents(cs, 1), e),
        percent_of(percents(cs, 2), e),
    ));
}

/// The part of an area in the middle of it.
pub fn centered_rect(percent_x: u16, percent_y: u16, area: Rect) -> (r: Rect)
    requires
        percent_x <= 100,
        percent_y <= 100,
        area.fits(),
    ensures
        r == centered(percent_x, percent_y, area),
        r.within(area),
{
    let column = split(area, true, &three(percent_y));
    proof {
        lemma_middle(column@, area, true, percent_y);
    }
    let row = split(column[1], false, &three(percent_x));
    proof {
        lemma_middle(row@, column@[1], false, percent_x);
    }
    row[1]
}

fn measure_picker(inner: Rect) -> (r: PickerParts)
    requires
        inner.fits(),
        inner.height >= 4,
    ensures
        r == picker_parts(inner),
{
    let wishes: Vec<Constraint> = vec![
        Constraint::Length(1),
        Constraint::Length(1),
        Constraint::Min(1),
        Constraint::Length(1),
    ];
    assert(wishes@ =~= picker_wishes());
    let v = split(inner, true, &wishes);
    proof {
        let cs = picker_wishes();
        let h = inner.height as nat;
        reveal_with_fuel(wished, 5);
        reveal_with_fuel(offset, 5);
        reveal_with_fuel(crate::layout::lengths, 5);
        assert(wished(cs, 4) <= h);
        assert(has_room(cs, h));
        assert(runs(v@[0], inner, true, offset(cs, 0, h), offset(cs, 1, h)));
        assert(runs(v@[1], inner, true, offset(cs, 1, h), offset(cs, 2, h)));
        assert(runs(v@[2], inner, true, offset(cs, 2, h), offset(cs, 3, h)));
        assert(runs(v@[3], inner, true, offset(cs, 3, h), offset(cs, 4, h)));
    }
    PickerParts { input: v[0], divider: v[1], results: v[2], hint: v[3] }
}

/// The areas of a screen, with a bar for the filter or without.
pub fn measure(area: Rect, filter: bool) -> (r: Parts)
    ensures
        laid_out(r, area, filter),
        area.fits() && area.height >= 6 ==> r == screen_parts(area, filter),
{
    let filter_height: u16 = if filter {
        1
    } else {
        0
    };
    let wishes: Vec<Constraint> = vec![
        Constraint::Length(1),
        Constraint::Min(1),
        Constraint::Length(1),
        Constraint::Length(filter_height),
        Constraint::Length(2),
    ];
    assert(wishes@ =~= main_wishes(filter));
    let v = split(area, true, &wishes);
    let wishes: Vec<Constraint> = vec![Constraint::Length(1), Constraint::Length(1)];
    assert(wishes@ =~= status_wishes());
    let s = split(v[4], true, &wishes);
    let wishes: Vec<Constraint> = vec![
        Constraint::Length(1),
        Constraint::Min(1),
        Constraint::Length(1),
    ];
    assert(wishes@ =~= editor_wishes());
    let e = split(area, true, &wishes);
    let r = Parts {
        title: v[0],
        body: v[1],
        path: v[2],
        filter: v[3],
        status: v[4],
        status_top: s[0],
        status_bottom: s[1],
        editor: EditorParts { title: e[0], body: e[1], hint: e[2] },
    };
    assert(v@ =~= seq![r.title, r.body, r.path, r.filter, r.status]);
    assert(s@ =~= seq![r.status_top, r.status_bottom]);
    assert(e@ =~= seq![r.editor.title, r.editor.body, r.editor.hint]);
    proof {
        if area.fits() && area.height >= 6 {
            roomy_screen_has_its_parts(r, area, filter);
        }
    }
    r
}

/// Where a question of the editor is.
pub open spec fn question_rect(prompt: Option<PromptView>, area: Rect) -> Rect {
    match prompt {
        Some(PromptView::LargeFile { .. }) => centered(60, 30, area),
        _ => centered(50, 25, area),
    }
}

impl AppView {
    /// With the editor told how large the screen is, where it is in front.
    pub open spec fn editor_sized(self, area: Rect) -> AppView {
        if self.screen == Screen::Editor && self.editor is Some {
            AppView {
                editor: Some(
                    EditorView { size: (area.width, area.height), ..self.editor->0 },
                ),
                ..self
            }
        } else {
            self
        }
    }

    /// With the bars and the rows.
    #[verifier::opaque]
    pub open spec fn main_on(self, parts: Parts, now: u64) -> Picture {
        let p = self.title_on(Picture::empty(), parts.title);
        let p = self.body_on(p, parts.body);
        let p = self.selected_path_on(p, parts.path);
        let p = if self.filter.active {
            self.filter_bar_on(p, parts.filter)
        } else {
            p
        };
        self.status_on(p, parts.status_top, parts.status_bottom, now)
    }

    /// With what is in front of the rows.
    #[verifier::opaque]
    pub open spec fn front_on(
        self,
        p: Picture,
        area: Rect,
        parts: Parts,
        lines: Seq<Seq<SpanView>>,
        root: bool,
    ) -> Picture {
        match self.screen {
            Screen::Main => p,
            Screen::Help => panel_on(p, centered(70, 80, area), " Help "@, help_lines()),
            Screen::Settings => self.settings_on(p, centered(70, 80, area)),
            Screen::Warnings => panel_on(
                p,
                centered(80, 80, area),
                " Warnings "@,
                self.warnings_lines(centered(80, 80, area)),
            ),
            Screen::Permissions => match self.perms {
                Some(s) => s.perms_on(
                    p,
                    centered(64, 60, area),
                    centered(50, 25, area),
                    root,
                ),
                None => p,
            },
            Screen::NewItem => match self.new_item {
                Some(n) => n.item_on(p, centered(50, 40, area)),
                None => p,
            },
            Screen::Editor => match self.editor {
                Some(e) => e.editor_on(
                    p,
                    area,
                    parts.editor,
                    question_rect(e.prompt, area),
                    lines,
                ),
                None => p,
            },
        }
    }

    /// With the picker, where it is open.
    pub open spec fn picker_in_front(self, p: Picture, area: Rect) -> Picture {
        match self.spotlight {
            Some(s) => s.picker_on(
                p,
                picker_rect(area),
                picker_parts(picker_rect(area).inside()),
            ),
            None => p,
        }
    }

    /// With rows and settings scrolled so that what is selected is seen.
    pub open spec fn scrolled(self, area: Rect, parts: Parts) -> AppView {
        let a = AppView { body_rect: parts.body, ..self }.body_laid(parts.body);
        if a.screen == Screen::Settings {
            a.settings_laid(centered(70, 80, area))
        } else {
            a
        }
    }

    /// What is drawn of the state that it leads to, on areas that are given,
    /// with the rows of the editor that are given.
    pub open spec fn drawn(
        self,
        area: Rect,
        parts: Parts,
        lines: Seq<Seq<SpanView>>,
        env: Env,
    ) -> Picture {
        let p = self.main_on(parts, env.now);
        let q = self.front_on(p, area, parts, lines, env.root);
        self.picker_in_front(q, area)
    }

    /// The rows of the editor on a part of the screen, where it is in front.
    pub open spec fn editor_rows(self, body: Rect) -> Seq<Seq<SpanView>> {
        match self.editor {
            Some(e) => if self.screen == Screen::Editor {
                e.text_shown(body.height, body.width)
            } else {
                Seq::empty()
            },
            None => Seq::empty(),
        }
    }

    /// Whether a screen that is drawn leads to a state and to widgets, on the
    /// areas `parts` of the screen.
    pub open spec fn draws(
        self,
        area: Rect,
        parts: Parts,
        env: Env,
        after: AppView,
        widgets: Seq<WidgetView>,
    ) -> bool {
        let a = self.scrolled(area, parts);
        let p = a.drawn(area, parts, self.editor_rows(parts.editor.body), env);
        &&& after == a.clickable(p)
        &&& widgets == p.widgets
    }

    /// With what can be clicked.
    pub open spec fn clickable(self, p: Picture) -> AppView {
        AppView { hits: p.hits, ..self }
    }
}

/// The bars and the rows do not depend on how far the settings are scrolled.
proof fn lemma_laid_settings(a: AppView, popup: Rect, parts: Parts, now: u64)
    ensures
        a.settings_laid(popup).main_on(parts, now) == a.main_on(parts, now),
{
    let b = a.settings_laid(popup);
    assert(b.render_opts() == a.render_opts());
    assert(b.rows() == a.rows());
    assert forall|p: Picture| #[trigger] b.title_on(p, parts.title) == a.title_on(p, parts.title) by {}
    assert forall|p: Picture| #[trigger] b.body_on(p, parts.body) == a.body_on(p, parts.body) by {
        assert(b.body_lines(parts.body.height as nat) =~= a.body_lines(parts.body.height as nat));
    }
    assert forall|p: Picture| #[trigger]
        b.selected_path_on(p, parts.path) == a.selected_path_on(p, parts.path) by {}
    assert forall|p: Picture| #[trigger]
        b.filter_bar_on(p, parts.filter) == a.filter_bar_on(p, parts.filter) by {
        assert(b.match_count() == a.match_count());
    }
    assert forall|p: Picture| #[trigger]
        b.status_on(p, parts.status_top, parts.status_bottom, now) == a.status_on(
            p,
            parts.status_top,
            parts.status_bottom,
            now,
        ) by {
        assert(b.segments() =~= a.segments());
        assert(b.message(now) == a.message(now));
    }
    reveal(AppView::main_on);
}

impl App {
    fn size_editor(&mut self, area: Rect)
        ensures
            final(self)@ == old(self)@.editor_sized(area),
            old(self)@.wf() ==> final(self)@.wf(),
    {
        let ghost v = self@;
        if self.screen == Screen::Editor {
            match self.editor.take() {
                Some(e) => {
                    let mut e = e;
                    e.report_size(area.width, area.height);
                    self.editor = Some(e);
                },
                None => {},
            }
        }
        assert(self@ =~= v.editor_sized(area));
    }

    fn draw_main(&mut self, c: &mut Canvas, parts: Parts, now: u64)
        requires
            old(self)@.rows_ready(),
            old(self)@.root.countable(),
            old(c)@ == Picture::empty(),
        ensures
            final(self)@ == (AppView { body_rect: parts.body, ..old(self)@ }).body_laid(parts.body),
            final(c)@ == final(self)@.main_on(parts, now),
            final(self)@.rows_ready(),
            old(self)@.wf() ==> final(self)@.wf(),
    {
        let ghost v = self@;
        let ghost a = AppView { body_rect: parts.body, ..v };
        let ghost b = a.body_laid(parts.body);
        self.draw_title(c, parts.title);
        self.body_rect = parts.body;
        assert(self@ =~= a);
        proof {
            reveal(AppView::main_on);
            assert(a.render_opts() == v.render_opts());
            assert(b.render_opts() == v.render_opts());
            assert(b.title_on(Picture::empty(), parts.title) == v.title_on(
                Picture::empty(),
                parts.title,
            ));
        }
        self.draw_body(c, parts.body);
        self.draw_selected_path(c, parts.path);
        if self.filter.active {
            self.draw_filter_bar(c, parts.filter);
        }
        self.draw_status(c, parts.status_top, parts.status_bottom, now);
    }

    fn draw_question_rect(e: &Editor, area: Rect) -> (r: Rect)
        requires
            area.fits(),
        ensures
            r == question_rect(e@.prompt, area),
    {
        match &e.prompt {
            Some(crate::editor::EditorPrompt::LargeFile { .. }) => centered_rect(60, 30, area),
            _ => centered_rect(50, 25, area),
        }
    }

    fn draw_front(
        &self,
        c: &mut Canvas,
        area: Rect,
        parts: Parts,
        lines: Vec<Line>,
        root: bool,
    )
        requires
            area.fits(),
            self@.screen != Screen::Settings,
        ensures
            final(c)@ == self@.front_on(old(c)@, area, parts, line_views(lines@), root),
    {
        proof {
            reveal(AppView::front_on);
        }
        match self.screen {
            Screen::Main | Screen::Settings => {},
            Screen::Help => {
                draw_help(c, centered_rect(70, 80, area));
            },
            Screen::Warnings => {
                self.draw_warnings(c, centered_rect(80, 80, area));
            },
            Screen::Permissions => {
                if let Some(s) = &self.perms {
                    let popup = centered_rect(64, 60, area);
                    let confirm = centered_rect(50, 25, area);
                    s.draw(c, popup, confirm, root);
                }
            },
            Screen::NewItem => {
                if let Some(n) = &self.new_item {
                    n.draw(c, centered_rect(50, 40, area));
                }
            },
            Screen::Editor => {
                if let Some(e) = &self.editor {
                    let popup = App::draw_question_rect(e, area);
                    e.draw(c, area, parts.editor, popup, lines);
                }
            },
        }
    }

    fn draw_spotlight(&self, c: &mut Canvas, area: Rect)
        requires
            area.fits(),
        ensures
            final(c)@ == self@.picker_in_front(old(c)@, area),
    {
        if let Some(s) = &self.spotlight {
            let popup = picker_rect(area);
            let inner = popup.inside();
            let parts = if inner.height < 4 {
                PickerParts { input: inner, divider: inner, results: inner, hint: inner }
            } else {
                measure_picker(inner)
            };
            s.draw(c, popup, parts);
        }
    }

    fn draw_over(
        &mut self,
        c: &mut Canvas,
        area: Rect,
        parts: Parts,
        lines: Vec<Line>,
        env: &Env,
    )
        requires
            area.fits(),
            old(c)@ == old(self)@.main_on(parts, env.now),
        ensures
            final(self)@ == (if old(self)@.screen == Screen::Settings {
                old(self)@.settings_laid(centered(70, 80, area))
            } else {
                old(self)@
            }),
            final(c)@ == final(self)@.front_on(
                final(self)@.main_on(parts, env.now),
                area,
                parts,
                line_views(lines@),
                env.root,
            ),
            old(self)@.wf() ==> final(self)@.wf(),
    {
        let ghost b = self@;
        if self.screen == Screen::Settings {
            let popup = centered_rect(70, 80, area);
            self.draw_settings(c, popup);
            proof {
                lemma_laid_settings(b, popup, parts, env.now);
                reveal(AppView::front_on);
            }
        } else {
            self.draw_front(c, area, parts, lines, env.root);
        }
    }

    /// Draws the screen on areas that are given, with the rows of the editor
    /// that are given.
    pub fn draw_in(&mut self, area: Rect, parts: Parts, lines: Vec<Line>, env: &Env) -> (r: Vec<
        Widget,
    >)
        requires
            old(self)@.wf(),
            old(self)@.rows_ready(),
            old(self)@.root.countable(),
            area.fits(),
        ensures
            ({
                let a = old(self)@.scrolled(area, parts);
                let p = a.drawn(area, parts, line_views(lines@), *env);
                &&& final(self)@ == a.clickable(p)
                &&& widget_views(r@) == p.widgets
            }),
            final(self)@.wf(),
    {
        let ghost shown = line_views(lines@);
        let ghost v = self@;
        let mut c = Canvas::new();
        self.draw_main(&mut c, parts, env.now);
        self.draw_over(&mut c, area, parts, lines, env);
        let ghost a = self@;
        assert(a == v.scrolled(area, parts));
        self.draw_spotlight(&mut c, area);
        assert(c@ == a.drawn(area, parts, shown, *env));
        self.hits = c.hits;
        assert(self@ =~= a.clickable(c@));
        c.widgets
    }

    /// Draws the screen. On one of less than six rows the areas may lie either
    /// way.
    pub fn draw(&mut self, area: Rect, env: &Env) -> (r: Vec<Widget>)
        requires
            old(self)@.wf(),
            old(self)@.rows_ready(),
            old(self)@.root.countable(),
            area.fits(),
        ensures
            area.height >= 6 ==> old(self)@.editor_sized(area).draws(
                area,
                screen_parts(area, old(self)@.filter.active),
                *env,
                final(self)@,
                widget_views(r@),
            ),
            exists|parts: Parts|
                laid_out(parts, area, old(self)@.filter.active) && #[trigger] old(
                    self,
                )@.editor_sized(area).draws(area, parts, *env, final(self)@, widget_views(r@)),
            final(self)@.wf(),
    {
        let ghost v = self@;
        self.size_editor(area);
        let ghost s = self@;
        proof {
            assert(s.render_opts() == v.render_opts());
        }
        let parts = measure(area, self.filter.active);
        let mut lines = no_lines();
        if self.screen == Screen::Editor {
            if let Some(e) = &self.editor {
                lines = e.body_rows(parts.editor.body);
            }
        }
        assert(line_views(lines@) =~= s.editor_rows(parts.editor.body));
        let r = self.draw_in(area, parts, lines, env);
        proof {
            assert(laid_out(parts, area, v.filter.active));
            assert(s.draws(area, parts, *env, self@, widget_views(r@)));
        }
        r
    }
}

} // verus!
