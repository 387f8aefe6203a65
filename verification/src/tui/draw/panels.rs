//! The panels in front of the rows: help, warnings and settings.

use vstd::prelude::*;

use crate::layout::{minus16, plus16, Rect};
use crate::style::{line_views, one, sp, Color, Line, SpanView, Style};
use crate::text::{decimal, decimal_text};
use crate::tui::draw::{no_lines, push_line, Canvas, Picture};
use crate::tui::navigate::concat3;
use crate::tui::settings::{setting_views, SettingKind};
use crate::tui::{Action, App, AppView, HitRegion};

verus! {

/// A line of plain text; an empty text has no pieces.
pub open spec fn text_line(s: Seq<char>) -> Seq<SpanView> {
    if s.len() == 0 {
        Seq::empty()
    } else {
        one(s, Style::plain())
    }
}

pub(crate) fn line_of_text(s: &str) -> (r: Line)
    ensures
        r@ == text_line(s@),
{
    if s.unicode_len() == 0 {
        Line::new()
    } else {
        Line::of(s, Style::plain())
    }
}

/// Up to `n` items from `from` on.
pub open spec fn window<T>(s: Seq<T>, from: nat, n: nat) -> Seq<T> {
    if from >= s.len() {
        Seq::empty()
    } else if from + n >= s.len() {
        s.skip(from as int)
    } else {
        s.subrange(from as int, (from + n) as int)
    }
}

/// The end of a window.
pub(crate) fn window_end(len: usize, from: usize, n: usize) -> (r: usize)
    ensures
        r <= len || r == from,
        r == (if from >= len {
            from as int
        } else if from + n >= len {
            len as int
        } else {
            from + n
        }),
{
    if from >= len {
        from
    } else if n >= len - from {
        len
    } else {
        from + n
    }
}

/// The lines that fit in a panel below its three lines of heading, at least
/// one.
pub open spec fn panel_rows(popup: Rect) -> nat {
    let inner = minus16(popup.height, 2);
    if inner <= 3 {
        1
    } else {
        (inner - 3) as nat
    }
}

fn rows_of_panel(popup: Rect) -> (r: usize)
    ensures
        r == panel_rows(popup),
        1 <= r <= 65535,
{
    let inner = minus16(popup.height, 2);
    if inner <= 3 {
        1
    } else {
        (inner - 3) as usize
    }
}

/// With a panel of lines, and its title in the border.
pub open spec fn panel_on(p: Picture, popup: Rect, title: Seq<char>, lines: Seq<Seq<SpanView>>) -> Picture {
    p.boxed(popup, sp(title, Style::plain()), Style::plain()).para(
        popup.inside(),
        lines,
        Style::plain(),
        true,
    )
}

fn draw_panel(c: &mut Canvas, popup: Rect, title: &str, lines: Vec<Line>)
    ensures
        final(c)@ == panel_on(old(c)@, popup, title@, line_views(lines@)),
{
    c.boxed(popup, title, Style::plain(), Style::plain());
    c.para(popup.inside(), lines, Style::plain(), true);
}

/// What the keys do, as the help says it.
pub open spec fn help_texts() -> Seq<Seq<char>> {
    seq![
        ""@,
        "Navigation"@,
        "  j / k / ↑↓     navigate one row"@,
        "  PgUp / PgDn    half page"@,
        "  g / Home       jump to top"@,
        "  G / End        jump to bottom"@,
        "  Enter          drill into directory"@,
        "  u / Backspace  go up"@,
        "  ~              jump to home"@,
        "  r              rescan current directory"@,
        ""@,
        "Display"@,
        "  1 2 3 4        switch mode (tree/bars/treemap/flat)"@,
        "  s              cycle sort (size↓ size↑ name↑ name↓)"@,
        "  c              cycle theme"@,
        "  f              toggle showing files"@,
        "  . or h         toggle hidden files"@,
        "  d              toggle empty dirs"@,
        "  p              toggle percentage column"@,
        "  m              toggle modified column"@,
        ""@,
        "Filter"@,
        "  /              open filter bar"@,
        "  Esc            clear filter"@,
        ""@,
        "Actions"@,
        "  x              exclude selected entry (session)"@,
        "  o              open in system file manager (xdg-open)"@,
        "  y              yank path to clipboard"@,
        "  e              open file in editor"@,
        "  i              permission inspector"@,
        "  S              settings panel"@,
        "  w              warnings overlay"@,
        "  Space / Ctrl-P open path spotlight"@,
        "  ?              this help"@,
        "  q / Ctrl-C     quit"@,
        ""@,
    ]
}

/// The help.
pub open spec fn help_lines() -> Seq<Seq<SpanView>> {
    seq![one("diskvis — keybinds"@, Style::plain().bold())] + help_texts().map_values(
        |t: Seq<char>| text_line(t),
    ) + seq![
        one(
            "Mouse: click rows, double-click drills, scroll wheel navigates."@,
            Style::plain().fg(Color::DarkGray),
        ),
    ]
}

fn help_list() -> (r: Vec<&'static str>)
    ensures
        r@.map_values(|t: &'static str| t@) == help_texts(),
{
    let v: Vec<&'static str> = vec![
        "",
        "Navigation",
        "  j / k / ↑↓     navigate one row",
        "  PgUp / PgDn    half page",
        "  g / Home       jump to top",
        "  G / End        jump to bottom",
        "  Enter          drill into directory",
        "  u / Backspace  go up",
        "  ~              jump to home",
        "  r              rescan current directory",
        "",
        "Display",
        "  1 2 3 4        switch mode (tree/bars/treemap/flat)",
        "  s              cycle sort (size↓ size↑ name↑ name↓)",
        "  c              cycle theme",
        "  f              toggle showing files",
        "  . or h         toggle hidden files",
        "  d              toggle empty dirs",
        "  p              toggle percentage column",
        "  m              toggle modified column",
        "",
        "Filter",
        "  /              open filter bar",
        "  Esc            clear filter",
        "",
        "Actions",
        "  x              exclude selected entry (session)",
        "  o              open in system file manager (xdg-open)",
        "  y              yank path to clipboard",
        "  e              open file in editor",
        "  i              permission inspector",
        "  S              settings panel",
        "  w              warnings overlay",
        "  Space / Ctrl-P open path spotlight",
        "  ?              this help",
        "  q / Ctrl-C     quit",
        "",
    ];
    assert(v@.map_values(|t: &'static str| t@) =~= help_texts());
    v
}

/// Draws the help.
pub fn draw_help(c: &mut Canvas, popup: Rect)
    ensures
        final(c)@ == panel_on(old(c)@, popup, " Help "@, help_lines()),
{
    let list = help_list();
    let ghost texts = help_texts();
    let ghost middle = texts.map_values(|t: Seq<char>| text_line(t));
    let ghost head = seq![one("diskvis — keybinds"@, Style::plain().bold())];
    let mut lines = no_lines();
    push_line(&mut lines, Line::of("diskvis — keybinds", Style::plain().bold()));
    assert(line_views(lines@) =~= head);
    assert(head + middle.take(0) =~= head);
    assert(list@.len() == texts.len());
    let mut i: usize = 0;
    while i < list.len()
        invariant
            i <= list@.len(),
            list@.len() == texts.len(),
            texts == list@.map_values(|t: &'static str| t@),
            middle == texts.map_values(|t: Seq<char>| text_line(t)),
            line_views(lines@) == head + middle.take(i as int),
        decreases list@.len() - i,
    {
        assert(texts[i as int] == list@[i as int]@);
        push_line(&mut lines, line_of_text(list[i]));
        i = i + 1;
        assert(middle.take(i as int) =~= middle.take(i - 1).push(middle[i - 1]));
        assert(head + middle.take(i as int) =~= (head + middle.take(i - 1)).push(middle[i - 1]));
    }
    assert(middle.take(i as int) =~= middle);
    push_line(
        &mut lines,
        Line::of(
            "Mouse: click rows, double-click drills, scroll wheel navigates.",
            Style::plain().fg(Color::DarkGray),
        ),
    );
    assert(line_views(lines@) =~= help_lines());
    draw_panel(c, popup, " Help ", lines);
}

/// A warning.
pub open spec fn warning_line_of(w: Seq<char>) -> Seq<SpanView> {
    one(w, Style::plain().fg(Color::Yellow))
}

impl AppView {
    pub open spec fn warnings_head(self) -> Seq<Seq<SpanView>> {
        seq![
            one(
                " Warnings  ("@ + decimal_text(self.warnings.len()) + " skipped) "@,
                Style::plain().bold(),
            ),
            one(
                "j/k or ↑↓: scroll   PgUp/PgDn   q/Esc/w: close"@,
                Style::plain().fg(Color::DarkGray),
            ),
            Seq::empty(),
        ]
    }

    /// The warnings that are seen in a panel.
    pub open spec fn warnings_lines(self, popup: Rect) -> Seq<Seq<SpanView>> {
        self.warnings_head() + (if self.warnings.len() == 0 {
            seq![one("No warnings — nothing was skipped."@, Style::plain().fg(Color::Green))]
        } else {
            window(self.warnings, self.warnings_scroll, panel_rows(popup)).map_values(
                |w: Seq<char>| warning_line_of(w),
            )
        })
    }

    /// With the settings scrolled so that the selected line is seen.
    pub open spec fn settings_laid(self, popup: Rect) -> AppView {
        let n = panel_rows(popup);
        AppView {
            settings_scroll: if self.settings_cursor < self.settings_scroll {
                self.settings_cursor
            } else if self.settings_cursor >= self.settings_scroll + n {
                (self.settings_cursor + 1 - n) as nat
            } else {
                self.settings_scroll
            },
            ..self
        }
    }

    /// A line of the settings panel, and what a click on it does.
    pub open spec fn setting_line(self, i: int) -> Seq<SpanView> {
        let item = self.setting_items()[i];
        let selected = i == self.settings_cursor;
        seq![
            sp(
                if selected {
                    "▶ "@
                } else {
                    "  "@
                },
                Style::plain(),
            ),
            sp(item.label, setting_style(item.kind, selected)),
        ]
    }

    /// The number of lines of the settings that are seen.
    pub open spec fn settings_seen(self, popup: Rect) -> nat {
        let n = self.setting_items().len();
        if self.settings_scroll >= n {
            0
        } else if self.settings_scroll + panel_rows(popup) >= n {
            (n - self.settings_scroll) as nat
        } else {
            panel_rows(popup)
        }
    }

    /// The settings that are seen in a panel.
    pub open spec fn settings_lines(self, popup: Rect) -> Seq<Seq<SpanView>> {
        settings_head() + Seq::new(
            self.settings_seen(popup),
            |k: int| self.setting_line(self.settings_scroll + k),
        )
    }

    /// What can be clicked among the settings.
    pub open spec fn settings_hits(self, popup: Rect) -> Seq<HitRegion> {
        Seq::new(
            self.settings_seen(popup),
            |k: int|
                HitRegion {
                    rect: setting_rect(popup, k as u16),
                    action: setting_action(
                        self.setting_items()[self.settings_scroll + k].kind,
                        (self.settings_scroll + k) as usize,
                    ),
                },
        )
    }

    /// With the settings panel, once it is laid out.
    pub open spec fn settings_on(self, p: Picture, popup: Rect) -> Picture {
        let q = panel_on(p, popup, " Settings "@, self.settings_lines(popup));
        Picture { hits: q.hits + self.settings_hits(popup), ..q }
    }
}

pub open spec fn settings_head() -> Seq<Seq<SpanView>> {
    seq![
        one("Settings"@, Style::plain().bold()),
        one(
            "Enter/Space: toggle  +/-: depth  PgUp/PgDn: scroll  q/Esc: close (saves)"@,
            Style::plain().fg(Color::DarkGray),
        ),
        Seq::empty(),
    ]
}

/// The style of a line of the settings panel.
#[verifier::allow_in_spec]
pub fn setting_style(kind: SettingKind, selected: bool) -> Style
    returns
        (match kind {
            SettingKind::ResetDefaults => Style::plain().fg(Color::Red).bold(),
            SettingKind::ClearFilter => Style::plain().fg(Color::Yellow),
            _ => if selected {
                Style::plain().bold().fg(Color::Cyan)
            } else {
                Style::plain()
            },
        }),
{
    match kind {
        SettingKind::ResetDefaults => Style::plain().fg(Color::Red).bold(),
        SettingKind::ClearFilter => Style::plain().fg(Color::Yellow),
        _ => if selected {
            Style::plain().bold().fg(Color::Cyan)
        } else {
            Style::plain()
        },
    }
}

/// Where line `k` of those that are seen lies in the settings panel.
#[verifier::allow_in_spec]
pub fn setting_rect(popup: Rect, k: u16) -> Rect
    returns
        Rect::new(
            plus16(popup.x, 1),
            plus16(plus16(plus16(popup.y, 1), 3), k),
            minus16(popup.width, 2),
            1,
        ),
{
    Rect::new(
        plus16(popup.x, 1),
        plus16(plus16(plus16(popup.y, 1), 3), k),
        minus16(popup.width, 2),
        1,
    )
}

/// What a click on line `i` of the settings panel does.
#[verifier::allow_in_spec]
pub fn setting_action(kind: SettingKind, i: usize) -> Action
    returns
        (match kind {
            SettingKind::ResetDefaults => Action::SettingsResetDefaults,
            SettingKind::ClearFilter => Action::SettingsClearFilter,
            _ => Action::SettingsRow(i),
        }),
{
    match kind {
        SettingKind::ResetDefaults => Action::SettingsResetDefaults,
        SettingKind::ClearFilter => Action::SettingsClearFilter,
        _ => Action::SettingsRow(i),
    }
}

impl App {
    /// Draws the warnings.
    pub fn draw_warnings(&self, c: &mut Canvas, popup: Rect)
        ensures
            final(c)@ == panel_on(
                old(c)@,
                popup,
                " Warnings "@,
                self@.warnings_lines(popup),
            ),
    {
        let ghost v = self@;
        let ghost head = v.warnings_head();
        assert(self.warnings@.len() == v.warnings.len());
        let mut lines = no_lines();
        let count = decimal(self.warnings.len() as u64);
        push_line(
            &mut lines,
            Line::of(&concat3(" Warnings  (", &count, " skipped) "), Style::plain().bold()),
        );
        push_line(
            &mut lines,
            Line::of(
                "j/k or ↑↓: scroll   PgUp/PgDn   q/Esc/w: close",
                Style::plain().fg(Color::DarkGray),
            ),
        );
        push_line(&mut lines, Line::new());
        assert(line_views(lines@) =~= head);
        if self.warnings.len() == 0 {
            push_line(
                &mut lines,
                Line::of("No warnings — nothing was skipped.", Style::plain().fg(Color::Green)),
            );
        } else {
            let from: usize = self.warnings_scroll;
            let n = rows_of_panel(popup);
            let to = window_end(self.warnings.len(), from, n);
            let ghost seen = window(v.warnings, from as nat, n as nat).map_values(
                |w: Seq<char>| warning_line_of(w),
            );
            assert(seen.len() == to - from);
            assert(head + seen.take(0) =~= head);
            let mut i: usize = from;
            while i < to
                invariant
                    from <= i <= to,
                    to <= self.warnings@.len() || to == from,
                    v == self@,
                    seen == window(v.warnings, from as nat, n as nat).map_values(
                        |w: Seq<char>| warning_line_of(w),
                    ),
                    seen.len() == to - from,
                    line_views(lines@) == head + seen.take(i - from),
                decreases to - i,
            {
                let w = &self.warnings[i];
                assert(v.warnings[i as int] == w@);
                push_line(&mut lines, Line::of(w, Style::plain().fg(Color::Yellow)));
                let ghost k = i - from;
                assert(seen[k] == warning_line_of(w@));
                i = i + 1;
                assert(seen.take(k + 1) =~= seen.take(k).push(seen[k]));
                assert(head + seen.take(k + 1) =~= (head + seen.take(k)).push(seen[k]));
            }
            assert(seen.take(i - from) =~= seen);
        }
        assert(line_views(lines@) =~= v.warnings_lines(popup));
        draw_panel(c, popup, " Warnings ", lines);
    }

    fn lay_out_settings(&mut self, popup: Rect)
        ensures
            final(self)@ == old(self)@.settings_laid(popup),
    {
        let n = rows_of_panel(popup);
        if self.settings_cursor < self.settings_scroll {
            self.settings_scroll = self.settings_cursor;
        } else if self.settings_cursor - self.settings_scroll >= n {
            self.settings_scroll = self.settings_cursor - (n - 1);
        }
        assert(self@ =~= old(self)@.settings_laid(popup));
    }

    fn draw_settings_lines(&self, c: &mut Canvas, popup: Rect)
        ensures
            final(c)@ == self@.settings_on(old(c)@, popup),
    {
        let ghost v = self@;
        let ghost p = c@;
        let items = self.settings_items();
        assert(items@.len() == setting_views(items@).len());
        let mut lines = no_lines();
        push_line(&mut lines, Line::of("Settings", Style::plain().bold()));
        push_line(
            &mut lines,
            Line::of(
                "Enter/Space: toggle  +/-: depth  PgUp/PgDn: scroll  q/Esc: close (saves)",
                Style::plain().fg(Color::DarkGray),
            ),
        );
        push_line(&mut lines, Line::new());
        let ghost head = settings_head();
        assert(line_views(lines@) =~= head);
        let from: usize = self.settings_scroll;
        let n = rows_of_panel(popup);
        let to = window_end(items.len(), from, n);
        let ghost seen = Seq::new(
            v.settings_seen(popup),
            |k: int| v.setting_line(v.settings_scroll + k),
        );
        let ghost hits = v.settings_hits(popup);
        assert(seen.len() == to - from);
        assert(head + seen.take(0) =~= head);
        assert(p.hits + hits.take(0) =~= p.hits);
        let mut i: usize = from;
        while i < to
            invariant
                from <= i <= to,
                to - from <= 65535,
                to <= items@.len() || to == from,
                v == self@,
                from == v.settings_scroll,
                setting_views(items@) == v.setting_items(),
                seen == Seq::new(
                    v.settings_seen(popup),
                    |k: int| v.setting_line(v.settings_scroll + k),
                ),
                hits == v.settings_hits(popup),
                seen.len() == to - from,
                hits.len() == to - from,
                line_views(lines@) == head + seen.take(i - from),
                c@ == (Picture { hits: p.hits + hits.take(i - from), ..p }),
            decreases to - i,
        {
            let item = &items[i];
            assert(v.setting_items()[i as int] == item@);
            let selected = i == self.settings_cursor;
            let mut line = Line::new();
            let prefix: &str = if selected {
                "▶ "
            } else {
                "  "
            };
            line.push_str(prefix, Style::plain());
            line.push_str(&item.label, setting_style(item.kind, selected));
            assert(line@ =~= v.setting_line(i as int));
            push_line(&mut lines, line);
            let k: usize = i - from;
            c.hit(setting_rect(popup, k as u16), setting_action(item.kind, i));
            assert(hits[k as int] == HitRegion {
                rect: setting_rect(popup, k as u16),
                action: setting_action(item.kind, i),
            });
            i = i + 1;
            assert(seen.take(k + 1) =~= seen.take(k as int).push(seen[k as int]));
            assert(head + seen.take(k + 1) =~= (head + seen.take(k as int)).push(seen[k as int]));
            assert(hits.take(k + 1) =~= hits.take(k as int).push(hits[k as int]));
            assert(p.hits + hits.take(k + 1) =~= (p.hits + hits.take(k as int)).push(
                hits[k as int],
            ));
            assert(c@ =~= (Picture { hits: p.hits + hits.take(k + 1), ..p }));
        }
        assert(seen.take(i - from) =~= seen);
        assert(hits.take(i - from) =~= hits);
        assert(line_views(lines@) =~= v.settings_lines(popup));
        draw_panel(c, popup, " Settings ", lines);
        assert(c@ =~= v.settings_on(p, popup));
    }

    /// Draws the settings panel, scrolled so that the selected line is seen.
    pub fn draw_settings(&mut self, c: &mut Canvas, popup: Rect)
        ensures
            final(self)@ == old(self)@.settings_laid(popup),
            final(c)@ == old(self)@.settings_laid(popup).settings_on(old(c)@, popup),
            old(self)@.wf() ==> final(self)@.wf(),
    {
        self.lay_out_settings(popup);
        self.draw_settings_lines(c, popup);
    }
}

/// When the settings are drawn, the selected line is seen.
pub proof fn selected_setting_is_seen(a: AppView, popup: Rect)
    requires
        a.settings_cursor < a.setting_items().len(),
    ensures
        ({
            let b = a.settings_laid(popup);
            &&& b.setting_items() == a.setting_items()
            &&& b.settings_scroll <= b.settings_cursor < b.settings_scroll + b.settings_seen(popup)
        }),
{
    assert(a.settings_laid(popup).setting_items() =~= a.setting_items());
}

} // verus!
