//! The bars below the rows: the selected path, the filter and the status.

use vstd::prelude::*;

use crate::display::{human_size, human_text, row_views, Row, RowView};
use crate::layout::{plus16, Rect};
use crate::lists::{lemma_filter_all, lemma_filter_none, lemma_filter_step};
use crate::paths::{same_components, same_path};
use crate::style::{line_views, sp, Color, Line, SpanView, Style};
use crate::text::{clone_opt, decimal, decimal_text, text_opt};
use crate::tui::draw::title::{behind, mode_name, mode_text};
use crate::tui::draw::{
    cut_tail, label_width, no_lines, push_line, tail_cut, width_of, Canvas, Picture,
};
use crate::tui::navigate::{concat3, sort_text};
use crate::tui::settings::{onoff, onoff_text};
use crate::tui::{Action, App, AppView};
use crate::walker::{dir_total, file_total};

verus! {

/// How long a message is shown, in nanoseconds.
pub const MESSAGE_NS: u64 = 3_000_000_000;

/// Text on the gray bar.
#[verifier::allow_in_spec]
pub fn on_gray(color: Color) -> Style
    returns
        Style::plain().bg(Color::DarkGray).fg(color),
{
    Style::plain().bg(Color::DarkGray).fg(color)
}

/// Whether a row stands for an entry below the directory that is shown.
pub open spec fn counts_as_match(r: RowView, root: Seq<char>) -> bool {
    r.name.len() > 0 && !(r.path is Some && same_components(r.path->0, root))
}

/// A segment of the status bar that can be clicked.
pub struct Segment {
    pub label: String,
    pub action: Action,
    pub color: Color,
}

/// The mathematical form of a [`Segment`].
pub struct SegmentView {
    pub label: Seq<char>,
    pub action: Action,
    pub color: Color,
}

impl View for Segment {
    type V = SegmentView;

    open spec fn view(&self) -> SegmentView {
        SegmentView { label: self.label@, action: self.action, color: self.color }
    }
}

pub open spec fn segment_views(v: Seq<Segment>) -> Seq<SegmentView> {
    v.map_values(|s: Segment| s@)
}

/// A segment.
pub open spec fn seg(label: Seq<char>, action: Action, color: Color) -> SegmentView {
    SegmentView { label, action, color }
}

/// Whether a label fits in a bar from column `x` on.
pub open spec fn label_fits(row: Rect, label: Seq<char>, x: u16) -> bool {
    x + width_of(label) <= row.x + row.width
}

/// With a segment at column `x`.
pub open spec fn segment_on(p: Picture, row: Rect, s: SegmentView, x: u16) -> Picture {
    let rect = Rect::new(x, row.y, width_of(s.label), 1);
    p.label(rect, s.label, Style::plain().fg(s.color).bg(Color::Black)).clickable(rect, s.action)
}

/// With the segments from `i` on, from column `x` on, as many as fit; and the
/// column behind them.
pub open spec fn segments_on(p: Picture, row: Rect, segs: Seq<SegmentView>, i: int, x: u16) -> (
    Picture,
    u16,
)
    decreases segs.len() - i,
{
    if i < 0 || i >= segs.len() || !label_fits(row, segs[i].label, x) {
        (p, x)
    } else {
        segments_on(
            segment_on(p, row, segs[i], x),
            row,
            segs,
            i + 1,
            behind(x, segs[i].label),
        )
    }
}

impl AppView {
    /// The path under the cursor, else that of the directory.
    pub open spec fn pointed_path(self) -> Seq<char> {
        if self.cursor < self.rows().len() && self.rows()[self.cursor as int].path is Some {
            self.rows()[self.cursor as int].path->0
        } else {
            self.root.path@
        }
    }

    /// With the path under the cursor.
    pub open spec fn selected_path_on(self, p: Picture, area: Rect) -> Picture {
        p.label(
            area,
            tail_cut(self.pointed_path(), area.width as nat),
            Style::plain().fg(Color::DarkGray).dim(),
        )
    }

    /// How many entries match the filter.
    pub open spec fn match_count(self) -> nat {
        self.rows().filter(|r: RowView| counts_as_match(r, self.root.path@)).len()
    }

    /// With the filter.
    pub open spec fn filter_bar_on(self, p: Picture, area: Rect) -> Picture {
        p.line(
            area,
            seq![
                sp(" Filter: "@, Style::plain().bg(Color::Yellow).fg(Color::Black).bold()),
                sp(" "@, Style::plain()),
                sp(self.filter.query, Style::plain().fg(Color::White).bold()),
                sp(
                    if self.filter.editing {
                        "█"@
                    } else {
                        ""@
                    },
                    Style::plain().fg(Color::Yellow),
                ),
                sp("  "@, Style::plain()),
                sp(
                    "("@ + decimal_text(self.match_count()) + " matches)"@,
                    Style::plain().fg(Color::DarkGray),
                ),
            ],
        )
    }

    /// The message that is shown: that a scan runs, else the last one while it
    /// is young.
    pub open spec fn message(self, now: u64) -> Option<Seq<char>> {
        if self.rescanning {
            Some("Scanning…"@)
        } else {
            match self.status_msg {
                Some((text, t)) => if now < t || now - t < MESSAGE_NS {
                    Some(text)
                } else {
                    None
                },
                None => None,
            }
        }
    }

    /// How many warnings there are.
    pub open spec fn warning_note(self) -> Seq<char> {
        if self.warnings.len() == 0 {
            Seq::empty()
        } else {
            "  ⚠ "@ + decimal_text(self.warnings.len()) + " (w)"@
        }
    }

    /// The first row of the status bar: a message, else the totals. Where there
    /// are warnings, a click on it shows them.
    pub open spec fn totals_on(self, p: Picture, row: Rect, now: u64) -> Picture {
        match self.message(now) {
            Some(text) => p.label(row, " "@ + text, on_gray(Color::White).bold()),
            None => {
                let q = p.para(
                    row,
                    seq![
                        seq![
                            sp(" path: "@, on_gray(Color::Gray)),
                            sp(self.root.path@, on_gray(Color::White)),
                            sp("  |  total: "@, on_gray(Color::Gray)),
                            sp(human_text(self.root.size), on_gray(Color::Green).bold()),
                            sp(
                                "  |  files: "@ + decimal_text(file_total(self.root)),
                                on_gray(Color::White),
                            ),
                            sp(
                                "  |  dirs: "@ + decimal_text(dir_total(self.root)),
                                on_gray(Color::White),
                            ),
                            sp(self.warning_note(), on_gray(Color::Yellow).bold()),
                        ],
                    ],
                    Style::plain().bg(Color::DarkGray),
                    false,
                );
                if self.warnings.len() == 0 {
                    q
                } else {
                    q.clickable(row, Action::OpenWarnings)
                }
            },
        }
    }

    /// The segments of the second row of the status bar.
    pub open spec fn segments(self) -> Seq<SegmentView> {
        let c = self.config;
        seq![
            seg(
                " sort: "@ + sort_text(c.sort, c.sort_order) + " "@,
                Action::CycleSort,
                Color::Magenta,
            ),
            seg(" mode: "@ + mode_text(c.mode) + " "@, Action::SetMode(c.mode), Color::Cyan),
            seg(
                " hidden: "@ + onoff_text(c.view.show_hidden) + " "@,
                Action::ToggleHidden,
                Color::Yellow,
            ),
            seg(
                " empty: "@ + (if c.view.show_empty {
                    "shown"@
                } else {
                    "hidden"@
                }) + " "@,
                Action::ToggleEmpty,
                Color::Yellow,
            ),
            seg(
                " %: "@ + onoff_text(c.view.show_percent) + " "@,
                Action::TogglePercent,
                Color::Yellow,
            ),
            seg(
                " mod: "@ + onoff_text(c.view.show_modified) + " "@,
                Action::ToggleModified,
                Color::Yellow,
            ),
            seg(" depth: "@ + decimal_text(c.depth as nat) + " "@, Action::Noop, Color::Gray),
        ]
    }

    /// The label that clears the filter.
    pub open spec fn filter_label(self) -> Seq<char> {
        " filter: \""@ + self.filter.query + "\" [x] "@
    }

    /// The second row of the status bar: what can be switched over, as far as
    /// it fits, and the filter where there is one.
    pub open spec fn toggles_on(self, p: Picture, row: Rect) -> Picture {
        let blank = p.para(row, seq![Seq::empty()], Style::plain().bg(Color::Black), false);
        let (q, x) = segments_on(blank, row, self.segments(), 0, row.x);
        if self.filter.active && label_fits(row, self.filter_label(), x) {
            let rect = Rect::new(x, row.y, width_of(self.filter_label()), 1);
            q.label(
                rect,
                self.filter_label(),
                Style::plain().fg(Color::Black).bg(Color::Yellow).bold(),
            ).clickable(rect, Action::ClearFilter)
        } else {
            q
        }
    }

    /// With the status bar in two rows.
    pub open spec fn status_on(self, p: Picture, top: Rect, bottom: Rect, now: u64) -> Picture {
        self.toggles_on(self.totals_on(p, top, now), bottom)
    }
}

fn push_segment(v: &mut Vec<Segment>, label: String, action: Action, color: Color)
    ensures
        segment_views(final(v)@) == segment_views(old(v)@).push(seg(label@, action, color)),
{
    v.push(Segment { label, action, color });
    assert(segment_views(v@) =~= segment_views(old(v)@).push(seg(label@, action, color)));
}

fn fits_in_bar(row: Rect, label: &str, x: u16) -> (r: bool)
    ensures
        r == label_fits(row, label@, x),
{
    x as u32 + label_width(label) as u32 <= row.x as u32 + row.width as u32
}

fn draw_segments(c: &mut Canvas, row: Rect, segs: &Vec<Segment>) -> (r: u16)
    ensures
        (final(c)@, r) == segments_on(old(c)@, row, segment_views(segs@), 0, row.x),
{
    let ghost all = segment_views(segs@);
    let ghost p = c@;
    let mut x: u16 = row.x;
    let mut i: usize = 0;
    assert(all.len() == segs@.len());
    while i < segs.len()
        invariant
            i <= segs@.len(),
            all == segment_views(segs@),
            all.len() == segs@.len(),
            p == old(c)@,
            segments_on(p, row, all, 0, row.x) == segments_on(c@, row, all, i as int, x),
        decreases segs@.len() - i,
    {
        let s = &segs[i];
        assert(all[i as int] == s@);
        if !fits_in_bar(row, &s.label, x) {
            return x;
        }
        let rect = Rect::new(x, row.y, label_width(&s.label), 1);
        c.label(rect, &s.label, Style::plain().fg(s.color).bg(Color::Black));
        c.hit(rect, s.action);
        x = plus16(x, plus16(label_width(&s.label), 1));
        i = i + 1;
    }
    x
}

impl App {
    /// Draws the path under the cursor.
    pub fn draw_selected_path(&self, c: &mut Canvas, area: Rect)
        requires
            self@.rows_ready(),
        ensures
            final(c)@ == self@.selected_path_on(old(c)@, area),
    {
        let rows = self.build_rows();
        assert(rows@.len() == row_views(rows@).len());
        let mut found: Option<String> = None;
        if self.cursor < rows.len() {
            assert(row_views(rows@)[self.cursor as int] == rows@[self.cursor as int]@);
            found = clone_opt(&rows[self.cursor].path);
        }
        let path = match found {
            Some(p) => p,
            None => self.root.path.clone(),
        };
        assert(path@ == self@.pointed_path());
        let text = cut_tail(&path, area.width as usize);
        c.label(area, &text, Style::plain().fg(Color::DarkGray).dim());
    }

    fn count_matches(&self, rows: &Vec<Row>) -> (r: usize)
        requires
            row_views(rows@) == self@.rows(),
        ensures
            r == self@.match_count(),
    {
        let ghost v = self@.rows();
        let ghost pred = |r: RowView| counts_as_match(r, self@.root.path@);
        let mut n: usize = 0;
        let mut i: usize = 0;
        proof {
            lemma_filter_none(v, pred);
        }
        assert(v.len() == rows@.len());
        while i < rows.len()
            invariant
                i <= rows@.len(),
                n <= i,
                v == row_views(rows@),
                v.len() == rows@.len(),
                pred == (|r: RowView| counts_as_match(r, self@.root.path@)),
                n == v.take(i as int).filter(pred).len(),
            decreases rows@.len() - i,
        {
            proof {
                lemma_filter_step(v, i as int, pred);
            }
            let r = &rows[i];
            assert(v[i as int] == r@);
            let is_root = match &r.path {
                Some(p) => same_path(p, &self.root.path),
                None => false,
            };
            if r.name.as_str().unicode_len() > 0 && !is_root {
                n = n + 1;
            }
            i = i + 1;
        }
        proof {
            lemma_filter_all(v, pred);
        }
        n
    }

    /// Draws the filter.
    pub fn draw_filter_bar(&self, c: &mut Canvas, area: Rect)
        requires
            self@.rows_ready(),
        ensures
            final(c)@ == self@.filter_bar_on(old(c)@, area),
    {
        let rows = self.build_rows();
        let n = self.count_matches(&rows);
        let mut line = Line::new();
        line.push_str(" Filter: ", Style::plain().bg(Color::Yellow).fg(Color::Black).bold());
        line.push_str(" ", Style::plain());
        line.push_str(&self.filter.query, Style::plain().fg(Color::White).bold());
        let cursor: &str = if self.filter.editing {
            "█"
        } else {
            ""
        };
        line.push_str(cursor, Style::plain().fg(Color::Yellow));
        line.push_str("  ", Style::plain());
        let count = decimal(n as u64);
        line.push(concat3("(", &count, " matches)"), Style::plain().fg(Color::DarkGray));
        let ghost whole = seq![
            sp(" Filter: "@, Style::plain().bg(Color::Yellow).fg(Color::Black).bold()),
            sp(" "@, Style::plain()),
            sp(self.filter.query@, Style::plain().fg(Color::White).bold()),
            sp(cursor@, Style::plain().fg(Color::Yellow)),
            sp("  "@, Style::plain()),
            sp(
                "("@ + decimal_text(n as nat) + " matches)"@,
                Style::plain().fg(Color::DarkGray),
            ),
        ];
        assert(line@ =~= whole);
        c.line(area, line);
    }

    fn shown_message(&self, now: u64) -> (r: Option<String>)
        ensures
            text_opt(r) == self@.message(now),
    {
        if self.rescanning {
            return Some("Scanning…".to_owned());
        }
        match &self.status_msg {
            Some((text, t)) => if now < *t || now - *t < MESSAGE_NS {
                Some(text.clone())
            } else {
                None
            },
            None => None,
        }
    }

    fn draw_totals(&self, c: &mut Canvas, row: Rect, now: u64)
        requires
            self@.root.countable(),
        ensures
            final(c)@ == self@.totals_on(old(c)@, row, now),
    {
        let ghost v = self@;
        assert(self.warnings@.len() == v.warnings.len());
        if let Some(text) = self.shown_message(now) {
            let mut s = " ".to_owned();
            s.append(&text);
            c.label(row, &s, on_gray(Color::White).bold());
            return;
        }
        let warn = if self.warnings.len() == 0 {
            let empty = String::new();
            assert(empty@ =~= Seq::<char>::empty());
            empty
        } else {
            let count = decimal(self.warnings.len() as u64);
            concat3("  ⚠ ", &count, " (w)")
        };
        assert(warn@ == v.warning_note());
        let mut line = Line::new();
        line.push_str(" path: ", on_gray(Color::Gray));
        line.push_str(&self.root.path, on_gray(Color::White));
        line.push_str("  |  total: ", on_gray(Color::Gray));
        line.push(human_size(self.root.size), on_gray(Color::Green).bold());
        let mut files = "  |  files: ".to_owned();
        files.append(&decimal(self.root.file_count() as u64));
        let mut dirs = "  |  dirs: ".to_owned();
        dirs.append(&decimal(self.root.dir_count() as u64));
        line.push(files, on_gray(Color::White));
        line.push(dirs, on_gray(Color::White));
        line.push(warn, on_gray(Color::Yellow).bold());
        let ghost whole = seq![
            sp(" path: "@, on_gray(Color::Gray)),
            sp(v.root.path@, on_gray(Color::White)),
            sp("  |  total: "@, on_gray(Color::Gray)),
            sp(human_text(v.root.size), on_gray(Color::Green).bold()),
            sp("  |  files: "@ + decimal_text(file_total(v.root)), on_gray(Color::White)),
            sp("  |  dirs: "@ + decimal_text(dir_total(v.root)), on_gray(Color::White)),
            sp(v.warning_note(), on_gray(Color::Yellow).bold()),
        ];
        assert(line@ =~= whole);
        let mut lines = no_lines();
        push_line(&mut lines, line);
        assert(line_views(lines@) =~= seq![whole]);
        c.para(row, lines, Style::plain().bg(Color::DarkGray), false);
        if self.warnings.len() > 0 {
            c.hit(row, Action::OpenWarnings);
        }
    }

    fn status_segments(&self) -> (r: Vec<Segment>)
        ensures
            segment_views(r@) == self@.segments(),
    {
        let f = &self.config;
        let mut v: Vec<Segment> = Vec::new();
        let sort = self.sort_label();
        push_segment(&mut v, concat3(" sort: ", &sort, " "), Action::CycleSort, Color::Magenta);
        push_segment(
            &mut v,
            concat3(" mode: ", mode_name(f.mode), " "),
            Action::SetMode(f.mode),
            Color::Cyan,
        );
        push_segment(
            &mut v,
            concat3(" hidden: ", onoff(f.view.show_hidden), " "),
            Action::ToggleHidden,
            Color::Yellow,
        );
        let empty: &str = if f.view.show_empty {
            "shown"
        } else {
            "hidden"
        };
        push_segment(&mut v, concat3(" empty: ", empty, " "), Action::ToggleEmpty, Color::Yellow);
        push_segment(
            &mut v,
            concat3(" %: ", onoff(f.view.show_percent), " "),
            Action::TogglePercent,
            Color::Yellow,
        );
        push_segment(
            &mut v,
            concat3(" mod: ", onoff(f.view.show_modified), " "),
            Action::ToggleModified,
            Color::Yellow,
        );
        let depth = decimal(f.depth as u64);
        push_segment(&mut v, concat3(" depth: ", &depth, " "), Action::Noop, Color::Gray);
        assert(segment_views(v@) =~= self@.segments());
        v
    }

    fn draw_toggles(&self, c: &mut Canvas, row: Rect)
        ensures
            final(c)@ == self@.toggles_on(old(c)@, row),
    {
        let mut lines = no_lines();
        push_line(&mut lines, Line::new());
        assert(line_views(lines@) =~= seq![Seq::<SpanView>::empty()]);
        c.para(row, lines, Style::plain().bg(Color::Black), false);
        let segs = self.status_segments();
        let x = draw_segments(c, row, &segs);
        if self.filter.active {
            let label = concat3(" filter: \"", &self.filter.query, "\" [x] ");
            if fits_in_bar(row, &label, x) {
                let rect = Rect::new(x, row.y, label_width(&label), 1);
                c.label(rect, &label, Style::plain().fg(Color::Black).bg(Color::Yellow).bold());
                c.hit(rect, Action::ClearFilter);
            }
        }
    }

    /// Draws the status bar in two rows.
    pub fn draw_status(&self, c: &mut Canvas, top: Rect, bottom: Rect, now: u64)
        requires
            self@.root.countable(),
        ensures
            final(c)@ == self@.status_on(old(c)@, top, bottom, now),
    {
        self.draw_totals(c, top, now);
        self.draw_toggles(c, bottom);
    }
}

/// What can be clicked in the second row of the status bar lies in it.
pub proof fn segments_stay_in_bar(p: Picture, row: Rect, segs: Seq<SegmentView>, i: int, x: u16)
    requires
        0 <= i <= segs.len(),
        row.fits(),
        row.x <= x,
        row.height > 0,
    ensures
        ({
            let q = segments_on(p, row, segs, i, x).0;
            &&& q.hits.len() >= p.hits.len()
            &&& forall|k: int|
                p.hits.len() <= k < q.hits.len() ==> (#[trigger] q.hits[k]).rect.within(row)
            &&& forall|k: int| 0 <= k < p.hits.len() ==> (#[trigger] q.hits[k]) == p.hits[k]
        }),
    decreases segs.len() - i,
{
    if i < segs.len() && label_fits(row, segs[i].label, x) {
        let next = segment_on(p, row, segs[i], x);
        segments_stay_in_bar(next, row, segs, i + 1, behind(x, segs[i].label));
    }
}

} // verus!
