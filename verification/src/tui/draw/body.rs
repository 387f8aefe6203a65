//! The rows.

use vstd::prelude::*;

use crate::binary64::{
    nearest_of, percent, percent_scaled, product, quotient, rounded, scaled, tenths, tenths_text,
    Double,
};
use crate::cli::Mode;
use crate::display::{row_views, Row, RowView};
use crate::layout::{minus16, plus16, Rect};
use crate::style::{line_views, one, sp, Color, Line, SpanView, Style};
use crate::text::{pad_start, padded_start, push_char, starts_with, starts_with_char};
use crate::tui::draw::{no_lines, push_line, Canvas, Picture, Widget, WidgetView};
use crate::tui::rows::{selectable, snap_cursor_to_selectable, snapped, snapping_finds_selectable};
use crate::tui::{App, AppView};

verus! {

/// Pieces of text, dimmed.
pub open spec fn dimmed(spans: Seq<SpanView>) -> Seq<SpanView> {
    spans.map_values(|s: SpanView| sp(s.content, s.style.dim()))
}

/// Hidden and empty entries are dimmed.
pub open spec fn is_dim(r: RowView) -> bool {
    (r.size == 0 && r.name.len() > 0) || starts_with(r.name, '.')
}

/// The mark in front of a row.
pub open spec fn row_mark(selected: bool) -> SpanView {
    if selected {
        sp("▶ "@, Style::plain().fg(Color::Cyan).bold())
    } else {
        sp("  "@, Style::plain())
    }
}

/// The share of a row in the whole, with one decimal.
pub open spec fn percent_text(size: u64, whole: u64) -> Seq<char> {
    padded_start(tenths_text(scaled(percent(size as nat, whole as nat), 10)), 5).push('%')
}

/// The share of a row, where it is shown. A row without a name has none.
pub open spec fn percent_spans(r: RowView, show: bool, whole: u64) -> Seq<SpanView> {
    if show && r.name.len() > 0 {
        seq![
            sp("  "@, Style::plain()),
            sp(percent_text(r.size, whole), Style::plain().fg(Color::Magenta)),
        ]
    } else {
        Seq::empty()
    }
}

/// How a row is drawn.
pub open spec fn body_line(r: RowView, selected: bool, show_percent: bool, whole: u64) -> Seq<
    SpanView,
> {
    seq![row_mark(selected)] + (if is_dim(r) {
        dimmed(r.line)
    } else {
        r.line
    }) + percent_spans(r, show_percent, whole)
}

/// The style of the selected row.
#[verifier::allow_in_spec]
pub fn selected_style() -> Style
    returns
        Style::plain().bg(Color::Rgb(40, 40, 60)),
{
    Style::plain().bg(Color::Rgb(40, 40, 60))
}

/// The height of the thumb of a scrollbar of `h` cells: the share of what is
/// seen, at least one cell.
pub open spec fn thumb_height(h: nat, total: nat, view: nat) -> nat {
    let t = rounded(product(quotient(nearest_of(view), nearest_of(total)), nearest_of(h)));
    if t < 1 {
        1
    } else if t > h {
        h
    } else {
        t
    }
}

/// How far `scroll` can go.
pub open spec fn max_scroll(total: nat, view: nat) -> nat {
    if total <= view + 1 {
        1
    } else {
        (total - view) as nat
    }
}

/// How far down the thumb is.
pub open spec fn thumb_top(h: nat, total: nat, view: nat, scroll: nat) -> nat {
    let room = (h - thumb_height(h, total, view)) as nat;
    let t = rounded(
        product(
            quotient(nearest_of(scroll), nearest_of(max_scroll(total, view))),
            nearest_of(room),
        ),
    );
    if t > room {
        room
    } else {
        t
    }
}

/// A cell of a scrollbar.
pub open spec fn bar_cell(h: nat, total: nat, view: nat, scroll: nat, i: int) -> Seq<SpanView> {
    let top = thumb_top(h, total, view, scroll);
    if top <= i < top + thumb_height(h, total, view) {
        one("█"@, Style::plain().fg(Color::Cyan))
    } else {
        one("│"@, Style::plain().fg(Color::DarkGray))
    }
}

/// With a scrollbar for `view` of `total` rows from `scroll` on.
pub open spec fn scrollbar_on(p: Picture, area: Rect, total: nat, view: nat, scroll: nat) -> Picture {
    let h = area.height as nat;
    if h == 0 || total == 0 {
        p
    } else {
        p.para(
            area,
            Seq::new(h, |i: int| bar_cell(h, total, view, scroll, i)),
            Style::plain(),
            false,
        )
    }
}

impl AppView {
    /// The rows scrolled so that the cursor, on a row that can be selected, is
    /// seen.
    pub open spec fn body_laid(self, area: Rect) -> AppView {
        let h = area.height as nat;
        let a = AppView { body_visible_rows: h, ..self };
        if self.config.mode == Mode::Treemap {
            AppView { body_scroll: 0, ..a }
        } else if self.rows().len() == 0 {
            a
        } else {
            let cursor = snapped(self.rows(), self.cursor);
            let scroll = if cursor < self.scroll {
                cursor
            } else if h > 0 && cursor >= self.scroll + h {
                (cursor + 1 - h) as nat
            } else {
                self.scroll
            };
            AppView { cursor, scroll, body_scroll: scroll, ..a }
        }
    }

    /// The size that shares refer to.
    pub open spec fn whole_size(self) -> u64 {
        if self.root.size < 1 {
            1
        } else {
            self.root.size
        }
    }

    /// The rows that are seen, as many as `h`.
    pub open spec fn body_lines(self, h: nat) -> Seq<Seq<SpanView>> {
        Seq::new(
            if self.scroll + h <= self.rows().len() {
                h
            } else {
                (self.rows().len() - self.scroll) as nat
            },
            |k: int|
                body_line(
                    self.rows()[self.scroll + k],
                    self.scroll + k == self.cursor,
                    self.config.view.show_percent,
                    self.whole_size(),
                ),
        )
    }

    /// The selected line among those that are seen.
    pub open spec fn marked_line(self, h: nat) -> Option<(usize, Style)> {
        if self.cursor - self.scroll < h {
            Some(((self.cursor - self.scroll) as usize, selected_style()))
        } else {
            None
        }
    }

    /// With the rows, once they are laid out.
    pub open spec fn rows_on(self, p: Picture, area: Rect) -> Picture {
        let h = area.height as nat;
        let total = self.rows().len();
        let bar: u16 = if total > h {
            1
        } else {
            0
        };
        let content = minus16(area.width, bar);
        let q = p.drawing(
            WidgetView::Para {
                rect: Rect::new(area.x, area.y, content, area.height),
                lines: self.body_lines(h),
                style: Style::plain(),
                wrap: true,
                marked: self.marked_line(h),
            },
        );
        if total > h {
            scrollbar_on(
                q,
                Rect::new(plus16(area.x, content), area.y, 1, area.height),
                total,
                h,
                self.scroll,
            )
        } else {
            q
        }
    }

    /// With the body, once it is laid out.
    pub open spec fn body_on(self, p: Picture, area: Rect) -> Picture {
        if self.config.mode == Mode::Treemap {
            p.drawing(WidgetView::Treemap { rect: area })
        } else if self.rows().len() == 0 {
            p
        } else {
            self.rows_on(p, area)
        }
    }
}

fn dim_line(line: &Line, out: &mut Line)
    ensures
        final(out)@ == old(out)@ + dimmed(line@),
{
    let ghost before = out@;
    let ghost all = dimmed(line@);
    let mut i: usize = 0;
    assert(before + all.take(0) =~= before);
    assert(line@.len() == line.spans@.len());
    while i < line.spans.len()
        invariant
            i <= line.spans@.len(),
            line@.len() == line.spans@.len(),
            all == dimmed(line@),
            out@ == before + all.take(i as int),
        decreases line.spans@.len() - i,
    {
        let s = &line.spans[i];
        out.push_str(&s.content, s.style.dim());
        assert(line@[i as int] == line.spans@[i as int]@);
        i = i + 1;
        assert(all.take(i as int) =~= all.take(i - 1).push(all[i - 1]));
        assert(before + all.take(i as int) =~= (before + all.take(i - 1)).push(all[i - 1]));
    }
    assert(all.take(i as int) =~= all);
}

fn copy_line(line: &Line, out: &mut Line)
    ensures
        final(out)@ == old(out)@ + line@,
{
    let ghost before = out@;
    let ghost all = line@;
    let mut i: usize = 0;
    assert(before + all.take(0) =~= before);
    assert(line@.len() == line.spans@.len());
    while i < line.spans.len()
        invariant
            i <= line.spans@.len(),
            all.len() == line.spans@.len(),
            all == line@,
            out@ == before + all.take(i as int),
        decreases line.spans@.len() - i,
    {
        let s = line.spans[i].copy();
        assert(all[i as int] == line.spans@[i as int]@);
        out.push_span(s);
        i = i + 1;
        assert(all.take(i as int) =~= all.take(i - 1).push(all[i - 1]));
        assert(before + all.take(i as int) =~= (before + all.take(i - 1)).push(all[i - 1]));
    }
    assert(all.take(i as int) =~= all);
}

/// The share of a row in the whole.
fn share_label(size: u64, whole: u64) -> (r: String)
    requires
        whole > 0,
    ensures
        r@ == percent_text(size, whole),
{
    let mut s = pad_start(&tenths(percent_scaled(size, whole, 10)), 5);
    push_char(&mut s, '%');
    s
}

fn row_line(r: &Row, selected: bool, show_percent: bool, whole: u64) -> (line: Line)
    requires
        whole > 0,
    ensures
        line@ == body_line(r@, selected, show_percent, whole),
{
    let mut line = Line::new();
    if selected {
        line.push_str("▶ ", Style::plain().fg(Color::Cyan).bold());
    } else {
        line.push_str("  ", Style::plain());
    }
    assert(line@ =~= seq![row_mark(selected)]);
    let named = r.name.as_str().unicode_len() > 0;
    if (r.size == 0 && named) || starts_with_char(&r.name, '.') {
        dim_line(&r.line, &mut line);
    } else {
        copy_line(&r.line, &mut line);
    }
    if show_percent && named {
        line.push_str("  ", Style::plain());
        line.push(share_label(r.size, whole), Style::plain().fg(Color::Magenta));
    }
    assert(line@ =~= body_line(r@, selected, show_percent, whole));
    line
}

/// The height of the thumb of a scrollbar.
fn thumb_size(h: u16, total: usize, view: u16) -> (r: u16)
    requires
        h > 0,
        total > 0,
    ensures
        r == thumb_height(h as nat, total as nat, view as nat),
        1 <= r <= h,
{
    let q = Double::of(view as u64).div(Double::of(total as u64));
    let t: u128 = q.mul(Double::of(h as u64)).round();
    if t < 1 {
        1
    } else if t > h as u128 {
        h
    } else {
        t as u16
    }
}

/// How far down the thumb is.
fn thumb_start(h: u16, total: usize, view: u16, scroll: usize) -> (r: u16)
    requires
        h > 0,
        total > 0,
    ensures
        r == thumb_top(h as nat, total as nat, view as nat, scroll as nat),
        r + thumb_height(h as nat, total as nat, view as nat) <= h,
{
    let room: u16 = h - thumb_size(h, total, view);
    let far: usize = if total <= view as usize || total - view as usize <= 1 {
        1
    } else {
        total - view as usize
    };
    let q = Double::of(scroll as u64).div(Double::of(far as u64));
    let t: u128 = q.mul(Double::of(room as u64)).round();
    if t > room as u128 {
        room
    } else {
        t as u16
    }
}

/// Draws a scrollbar for `view` of `total` rows from `scroll` on.
pub fn draw_scrollbar(c: &mut Canvas, area: Rect, total: usize, view: u16, scroll: usize)
    ensures
        final(c)@ == scrollbar_on(old(c)@, area, total as nat, view as nat, scroll as nat),
{
    if area.height == 0 || total == 0 {
        return;
    }
    let h = area.height;
    let size = thumb_size(h, total, view);
    let top = thumb_start(h, total, view, scroll);
    let ghost all = Seq::new(
        h as nat,
        |i: int| bar_cell(h as nat, total as nat, view as nat, scroll as nat, i),
    );
    let mut lines = no_lines();
    let mut i: u16 = 0;
    assert(all.take(0) =~= Seq::<Seq<SpanView>>::empty());
    while i < h
        invariant
            i <= h,
            size == thumb_height(h as nat, total as nat, view as nat),
            top == thumb_top(h as nat, total as nat, view as nat, scroll as nat),
            top + size <= h,
            all == Seq::new(
                h as nat,
                |i: int| bar_cell(h as nat, total as nat, view as nat, scroll as nat, i),
            ),
            line_views(lines@) == all.take(i as int),
        decreases h - i,
    {
        let cell = if i >= top && i < top + size {
            Line::of("█", Style::plain().fg(Color::Cyan))
        } else {
            Line::of("│", Style::plain().fg(Color::DarkGray))
        };
        assert(cell@ == all[i as int]);
        push_line(&mut lines, cell);
        i = i + 1;
        assert(all.take(i as int) =~= all.take(i - 1).push(all[i - 1]));
    }
    assert(all.take(i as int) =~= all);
    c.para(area, lines, Style::plain(), false);
}

impl App {
    /// Scrolls the rows so that the cursor is seen.
    pub fn lay_out_body(&mut self, area: Rect)
        requires
            old(self)@.rows_ready(),
        ensures
            final(self)@ == old(self)@.body_laid(area),
            old(self)@.wf() ==> final(self)@.wf(),
    {
        let ghost v = self@;
        let h: usize = area.height as usize;
        if self.config.mode == Mode::Treemap {
            self.body_visible_rows = h;
            self.body_scroll = 0;
            assert(self@ =~= v.body_laid(area));
            return;
        }
        let rows = self.build_rows();
        assert(rows@.len() == row_views(rows@).len());
        self.body_visible_rows = h;
        if rows.len() == 0 {
            assert(self@ =~= v.body_laid(area));
            return;
        }
        self.cursor = snap_cursor_to_selectable(&rows, self.cursor);
        if self.cursor < self.scroll {
            self.scroll = self.cursor;
        } else if h > 0 && self.cursor - self.scroll >= h {
            self.scroll = self.cursor - (h - 1);
        }
        self.body_scroll = self.scroll;
        assert(self@ =~= v.body_laid(area));
    }

    fn draw_rows(&self, c: &mut Canvas, area: Rect, rows: &Vec<Row>)
        requires
            row_views(rows@) == self@.rows(),
            self@.scroll <= self@.cursor < rows@.len(),
        ensures
            final(c)@ == self@.rows_on(old(c)@, area),
    {
        let ghost v = self@;
        let h: usize = area.height as usize;
        let total: usize = rows.len();
        assert(total == v.rows().len());
        let whole: u64 = if self.root.size < 1 {
            1
        } else {
            self.root.size
        };
        let count: usize = if h <= total - self.scroll {
            h
        } else {
            total - self.scroll
        };
        let ghost all = v.body_lines(h as nat);
        assert(all.len() == count);
        let mut lines = no_lines();
        let mut k: usize = 0;
        assert(all.take(0) =~= Seq::<Seq<SpanView>>::empty());
        while k < count
            invariant
                k <= count,
                v == self@,
                whole == v.whole_size(),
                total == rows@.len(),
                count <= total - self.scroll,
                self.scroll <= total,
                row_views(rows@) == v.rows(),
                h == area.height,
                all == v.body_lines(h as nat),
                all.len() == count,
                line_views(lines@) == all.take(k as int),
            decreases count - k,
        {
            let i: usize = self.scroll + k;
            assert(row_views(rows@)[i as int] == rows@[i as int]@);
            let line = row_line(
                &rows[i],
                i == self.cursor,
                self.config.view.show_percent,
                whole,
            );
            assert(line@ == all[k as int]);
            push_line(&mut lines, line);
            k = k + 1;
            assert(all.take(k as int) =~= all.take(k - 1).push(all[k - 1]));
        }
        assert(all.take(k as int) =~= all);
        let bar: u16 = if total > h {
            1
        } else {
            0
        };
        let content = minus16(area.width, bar);
        let marked: Option<(usize, Style)> = if self.cursor - self.scroll < h {
            Some((self.cursor - self.scroll, selected_style()))
        } else {
            None
        };
        c.add(
            Widget::Para {
                rect: Rect::new(area.x, area.y, content, area.height),
                lines,
                style: Style::plain(),
                wrap: true,
                marked,
            },
        );
        if total > h {
            draw_scrollbar(
                c,
                Rect::new(plus16(area.x, content), area.y, 1, area.height),
                total,
                area.height,
                self.scroll,
            );
        }
    }

    /// Draws the rows, scrolled so that the cursor is seen.
    pub fn draw_body(&mut self, c: &mut Canvas, area: Rect)
        requires
            old(self)@.rows_ready(),
        ensures
            final(self)@ == old(self)@.body_laid(area),
            final(c)@ == old(self)@.body_laid(area).body_on(old(c)@, area),
            old(self)@.wf() ==> final(self)@.wf(),
    {
        let ghost v = self@;
        self.lay_out_body(area);
        if self.config.mode == Mode::Treemap {
            c.add(Widget::Treemap { rect: area });
            return;
        }
        proof {
            lemma_laid_keeps_rows(v, area);
        }
        let rows = self.build_rows();
        assert(rows@.len() == row_views(rows@).len());
        if rows.len() > 0 {
            proof {
                lemma_laid_shows_cursor(v, area);
            }
            self.draw_rows(c, area, &rows);
        }
    }
}

/// Laying the rows out changes no row.
proof fn lemma_laid_keeps_rows(a: AppView, area: Rect)
    ensures
        a.body_laid(area).rows() == a.rows(),
        a.body_laid(area).rows_ready() == a.rows_ready(),
{
    assert(a.body_laid(area).render_opts() == a.render_opts());
}

proof fn lemma_laid_shows_cursor(a: AppView, area: Rect)
    requires
        a.config.mode != Mode::Treemap,
        a.rows().len() > 0,
    ensures
        ({
            let b = a.body_laid(area);
            &&& b.scroll <= b.cursor < b.rows().len()
            &&& area.height > 0 ==> b.cursor < b.scroll + area.height
        }),
{
    lemma_laid_keeps_rows(a, area);
    lemma_snapped_in_rows(a.rows(), a.cursor);
}

proof fn lemma_snapped_in_rows(rows: Seq<RowView>, cursor: nat)
    requires
        rows.len() > 0,
    ensures
        snapped(rows, cursor) < rows.len(),
{
    let c = if cursor >= rows.len() {
        (rows.len() - 1) as nat
    } else {
        cursor
    };
    crate::tui::rows::lemma_prev(rows, c);
}

/// When rows are drawn, the cursor is on a row that is seen, and on one that
/// can be selected where there is any.
pub proof fn cursor_row_is_seen(a: AppView, area: Rect)
    requires
        a.config.mode != Mode::Treemap,
        a.rows().len() > 0,
        area.height > 0,
    ensures
        ({
            let b = a.body_laid(area);
            &&& b.rows() == a.rows()
            &&& b.scroll <= b.cursor < b.scroll + area.height
            &&& b.cursor < a.rows().len()
            &&& (exists|i: int| selectable(a.rows(), i)) ==> selectable(a.rows(), b.cursor as int)
        }),
{
    lemma_laid_keeps_rows(a, area);
    lemma_laid_shows_cursor(a, area);
    if exists|i: int| selectable(a.rows(), i) {
        snapping_finds_selectable(a.rows(), a.cursor);
    }
}

/// The thumb of a scrollbar stays in it, at the top where nothing is scrolled.
pub proof fn thumb_stays_in_bar(h: nat, total: nat, view: nat, scroll: nat)
    requires
        h > 0,
    ensures
        1 <= thumb_height(h, total, view) <= h,
        thumb_top(h, total, view, scroll) + thumb_height(h, total, view) <= h,
        thumb_top(h, total, view, 0) == 0,
{
    assert(rounded(crate::binary64::Float::zero()) == 0);
}

} // verus!
