//! Which row is selected: by a click, by keys and by the wheel.

use vstd::prelude::*;

use crate::cli::Mode;
use crate::display::RowView;
use crate::keys::{KeyCode, KeyEvent, MouseEvent, MouseKind};
use crate::layout::Rect;
use crate::paths::same_components;
use crate::style::SpanView;
use crate::tui::draw::body::{body_line, cursor_row_is_seen};
use crate::tui::draw::Picture;
use crate::tui::mouse::{hit_from, point_in};
use crate::tui::rows::{
    lemma_next, lemma_prev, next_selectable, prev_selectable, selectable, snapped, stepped_down,
    stepped_up,
};
use crate::tui::{AppView, EffectView, Env, Screen};

verus! {

/// Whether there is a row and it does not stand for all hidden entries.
pub open spec fn can_be_selected(rows: Seq<RowView>, i: int) -> bool {
    0 <= i < rows.len() && !rows[i].is_hidden_summary
}

/// Whether a click comes too late or in too different a place to be the second of two.
pub open spec fn is_a_first_click(a: AppView, m: MouseEvent, now: u64) -> bool {
    match a.last_click {
        None => true,
        Some((t, x, y)) => now >= t + 450_000_000 || x != m.column || y != m.row,
    }
}

/// Whether rows that were laid out in an area are on the screen, with nothing in front.
pub open spec fn rows_in_front(a: AppView, area: Rect) -> bool {
    &&& a.screen == Screen::Main
    &&& a.config.mode != Mode::Treemap
    &&& a.body_rect == area
    &&& a.body_scroll == a.scroll
    &&& a.body_visible_rows == area.height
    &&& a.scroll <= a.cursor < a.rows().len()
    &&& a.cursor < a.scroll + area.height
    &&& can_be_selected(a.rows(), a.cursor as int)
    &&& a.rows().len() <= usize::MAX
}

/// The lines that are drawn of the rows.
pub open spec fn lines_on_screen(a: AppView, area: Rect) -> Seq<Seq<SpanView>> {
    a.body_on(Picture::empty(), area).widgets[0]->lines
}

/// Drawing lays the rows out: afterwards they are in front, and what is drawn at a
/// line is the row at that line, counted from the first one that is seen.
pub proof fn drawing_puts_rows_in_front(a: AppView, area: Rect)
    requires
        a.screen == Screen::Main,
        a.config.mode != Mode::Treemap,
        area.height > 0,
        a.rows().len() <= usize::MAX,
        exists|i: int| can_be_selected(a.rows(), i),
    ensures
        rows_in_front((AppView { body_rect: area, ..a }).body_laid(area), area),
{
    let b = AppView { body_rect: area, ..a };
    assert(b.render_opts() == a.render_opts());
    assert(b.rows() == a.rows());
    let i = choose|i: int| can_be_selected(a.rows(), i);
    assert(selectable(b.rows(), i));
    cursor_row_is_seen(b, area);
}

/// What is drawn at a line: the mark of the row that is selected, or blanks, and then
/// the row that many lines below the first one that is seen.
pub proof fn each_line_shows_its_row(a: AppView, area: Rect, k: int)
    requires
        rows_in_front(a, area),
        0 <= k < area.height,
        a.scroll + k < a.rows().len(),
    ensures
        ({
            let w = a.body_on(Picture::empty(), area).widgets[0];
            let line = lines_on_screen(a, area)[k];
            let r = a.rows()[a.scroll + k];
            &&& w is Para
            &&& w->Para_rect.x == area.x
            &&& w->Para_rect.y == area.y
            &&& k < w->lines.len()
            &&& line.len() >= 1 + r.line.len()
            &&& line[0].content == (if a.scroll + k == a.cursor {
                "▶ "@
            } else {
                "  "@
            })
            &&& forall|i: int|
                0 <= i < r.line.len() ==> (#[trigger] line[i + 1]).content == r.line[i].content
        }),
{
    let h = area.height as nat;
    let lines = a.body_lines(h);
    let p = a.rows_on(Picture::empty(), area);
    assert(p.widgets[0] is Para);
    assert(lines_on_screen(a, area) == lines);
    let r = a.rows()[a.scroll + k];
    let line = body_line(
        r,
        a.scroll + k == a.cursor,
        a.config.view.show_percent,
        a.whole_size(),
    );
    assert(lines[k] == line);
    assert forall|i: int| 0 <= i < r.line.len() implies (#[trigger] line[i + 1]).content
        == r.line[i].content by {
        if crate::tui::draw::body::is_dim(r) {
            assert(crate::tui::draw::body::dimmed(r.line)[i].content == r.line[i].content);
        }
    }
}

/// A click on a line of the rows, where nothing else can be clicked, selects the row
/// that is drawn there, and changes nothing else. Where no row is drawn, or one that
/// cannot be selected, nothing is.
pub proof fn click_selects_the_row_under_the_mouse(
    a: AppView,
    area: Rect,
    m: MouseEvent,
    now: u64,
)
    requires
        rows_in_front(a, area),
        m.kind == MouseKind::LeftDown,
        area.x <= m.column < area.x + area.width <= u16::MAX,
        area.y <= m.row < area.y + area.height <= u16::MAX,
        forall|i: int| 0 <= i < a.hits.len() ==> !point_in(
            (#[trigger] a.hits[i]).rect,
            m.column,
            m.row,
        ),
        is_a_first_click(a, m, now),
    ensures
        ({
            let b = a.mouse_step(m, now).0;
            let row = a.body_scroll + (m.row - area.y);
            &&& a.mouse_step(m, now).1 is Nothing
            &&& b == (AppView { cursor: b.cursor, last_click: b.last_click, ..a })
            &&& b.cursor == (if row < a.rows().len() && !a.rows()[row].is_hidden_summary {
                row
            } else {
                a.cursor as int
            })
        }),
{
    lemma_no_hit(a, 0, m.column, m.row);
    let c = AppView { last_click: Some((now, m.column, m.row)), ..a };
    assert(c.render_opts() == a.render_opts());
    assert(c.rows() == a.rows());
}

proof fn lemma_no_hit(a: AppView, i: int, x: u16, y: u16)
    requires
        0 <= i <= a.hits.len(),
        forall|j: int| 0 <= j < a.hits.len() ==> !point_in((#[trigger] a.hits[j]).rect, x, y),
    ensures
        hit_from(a.hits, i, x, y) is None,
    decreases a.hits.len() - i,
{
    if i < a.hits.len() {
        assert(!point_in(a.hits[i].rect, x, y));
        lemma_no_hit(a, i + 1, x, y);
    }
}

/// Once a row was clicked, the rows are drawn as before but for the mark, which is on
/// the line that was clicked and on no other.
#[verifier::rlimit(50)]
pub proof fn the_clicked_line_is_marked(a: AppView, area: Rect, m: MouseEvent, now: u64, k: int)
    requires
        rows_in_front(a, area),
        m.kind == MouseKind::LeftDown,
        area.x <= m.column < area.x + area.width <= u16::MAX,
        area.y <= m.row < area.y + area.height <= u16::MAX,
        forall|i: int| 0 <= i < a.hits.len() ==> !point_in(
            (#[trigger] a.hits[i]).rect,
            m.column,
            m.row,
        ),
        is_a_first_click(a, m, now),
        a.scroll + (m.row - area.y) < a.rows().len(),
        !a.rows()[a.scroll + (m.row - area.y)].is_hidden_summary,
        0 <= k < area.height,
        a.scroll + k < a.rows().len(),
    ensures
        ({
            let b = a.mouse_step(m, now).0.body_laid(area);
            let was = lines_on_screen(a, area)[k];
            let is = lines_on_screen(b, area)[k];
            &&& is[0].content == (if k == m.row - area.y {
                "▶ "@
            } else {
                "  "@
            })
            &&& is.len() == was.len()
            &&& forall|i: int| 0 < i < was.len() ==> #[trigger] is[i] == was[i]
        }),
{
    click_selects_the_row_under_the_mouse(a, area, m, now);
    let c = a.mouse_step(m, now).0;
    assert(c.render_opts() == a.render_opts());
    assert(c.rows() == a.rows());
    lemma_next(c.rows(), c.cursor);
    assert(snapped(c.rows(), c.cursor) == c.cursor);
    let b = c.body_laid(area);
    assert(b.render_opts() == a.render_opts());
    assert(b.rows() == a.rows());
    assert(b.scroll == a.scroll);
    assert(b.cursor == a.scroll + (m.row - area.y));
    let h = area.height as nat;
    assert(lines_on_screen(a, area) == a.body_lines(h));
    assert(lines_on_screen(b, area) == b.body_lines(h));
    assert(b.whole_size() == a.whole_size());
    let r = a.rows()[a.scroll + k];
    assert(a.body_lines(h)[k] == body_line(
        r,
        a.scroll + k == a.cursor,
        a.config.view.show_percent,
        a.whole_size(),
    ));
    assert(b.body_lines(h)[k] == body_line(
        r,
        b.scroll + k == b.cursor,
        a.config.view.show_percent,
        a.whole_size(),
    ));
}

/// A second click soon after the first in the same place goes into the directory that
/// is drawn there.
pub proof fn double_click_goes_into_the_row_under_the_mouse(
    a: AppView,
    area: Rect,
    m: MouseEvent,
    now: u64,
)
    requires
        rows_in_front(a, area),
        m.kind == MouseKind::LeftDown,
        area.x <= m.column < area.x + area.width <= u16::MAX,
        area.y <= m.row < area.y + area.height <= u16::MAX,
        forall|i: int| 0 <= i < a.hits.len() ==> !point_in(
            (#[trigger] a.hits[i]).rect,
            m.column,
            m.row,
        ),
        a.last_click matches Some((t, x, y)) && t <= now < t + 450_000_000 && x == m.column && y
            == m.row,
        a.scroll + (m.row - area.y) < a.rows().len(),
        ({
            let r = a.rows()[a.scroll + (m.row - area.y)];
            &&& r.is_dir
            &&& !r.is_hidden_summary
            &&& r.path is Some
            &&& !same_components(r.path->0, a.root.path@)
        }),
    ensures
        ({
            let row = a.scroll + (m.row - area.y);
            let (b, e) = a.mouse_step(m, now);
            &&& e == (EffectView::Rescan { path: a.rows()[row].path->0 })
            &&& b.cursor == row
            &&& b.nav_stack == a.nav_stack.push(a.root.path@)
        }),
{
    lemma_no_hit(a, 0, m.column, m.row);
    let c = AppView { last_click: Some((now, m.column, m.row)), ..a };
    assert(c.render_opts() == a.render_opts());
    assert(c.rows() == a.rows());
    let row = (a.scroll + (m.row - area.y)) as nat;
    let d = c.at_row(row);
    assert(d.render_opts() == a.render_opts());
    assert(d.rows() == a.rows());
}

/// Enter goes into the directory of the row that is selected; on a file, or on the
/// directory that is shown, it does nothing.
pub proof fn enter_goes_into_the_selected_row(a: AppView, key: KeyEvent, env: Env)
    requires
        key.press,
        key.code == KeyCode::Enter,
        a.screen == Screen::Main,
        a.editor is None && a.new_item is None && a.perms is None && a.spotlight is None,
        !a.filter.editing,
        a.cursor < a.rows().len(),
    ensures
        ({
            let (b, e) = a.key_step(key, env);
            let r = a.rows()[a.cursor as int];
            if r.is_dir && r.path is Some && !same_components(r.path->0, a.root.path@) {
                &&& e == (EffectView::Rescan { path: r.path->0 })
                &&& b == (AppView { nav_stack: a.nav_stack.push(a.root.path@), ..a })
            } else {
                e is Nothing && b == a
            }
        }),
{
    reveal(AppView::main_step);
}

/// The number of rows from `from` up to but not at `to` that can be selected.
pub open spec fn selectable_between(rows: Seq<RowView>, from: int, to: int) -> nat {
    rows.subrange(from, to).filter(|r: RowView| !r.is_hidden_summary).len()
}

proof fn lemma_between_none(rows: Seq<RowView>, from: int, to: int)
    requires
        0 <= from <= to <= rows.len(),
        forall|j: int| from <= j < to ==> !selectable(rows, j),
    ensures
        selectable_between(rows, from, to) == 0,
    decreases to - from,
{
    let pred = |r: RowView| !r.is_hidden_summary;
    reveal(Seq::filter);
    let s = rows.subrange(from, to);
    if from < to {
        lemma_between_none(rows, from, to - 1);
        assert(s.drop_last() =~= rows.subrange(from, to - 1));
        assert(!selectable(rows, to - 1));
        assert(s.last() == rows[to - 1]);
    }
}

proof fn lemma_between_splits(rows: Seq<RowView>, from: int, mid: int, to: int)
    requires
        0 <= from <= mid <= to <= rows.len(),
    ensures
        selectable_between(rows, from, to) == selectable_between(rows, from, mid)
            + selectable_between(rows, mid, to),
{
    let pred = |r: RowView| !r.is_hidden_summary;
    Seq::filter_distributes_over_add(rows.subrange(from, mid), rows.subrange(mid, to), pred);
    assert(rows.subrange(from, to) =~= rows.subrange(from, mid) + rows.subrange(mid, to));
}

proof fn lemma_between_one(rows: Seq<RowView>, i: int)
    requires
        selectable(rows, i),
    ensures
        selectable_between(rows, i, i + 1) == 1,
{
    reveal(Seq::filter);
    let s = rows.subrange(i, i + 1);
    assert(s.drop_last() =~= Seq::<RowView>::empty());
    assert(Seq::<RowView>::empty().filter(|r: RowView| !r.is_hidden_summary).len() == 0);
    assert(s.last() == rows[i]);
}

/// Going down by some rows passes that many rows that can be selected, and stops at the
/// last of them; where there are fewer, at the last there is.
pub proof fn down_counts_rows(rows: Seq<RowView>, from: nat, steps: nat)
    requires
        can_be_selected(rows, from as int),
    ensures
        ({
            let to = stepped_down(rows, from, steps);
            &&& from <= to < rows.len()
            &&& !rows[to as int].is_hidden_summary
            &&& selectable_between(rows, from as int, to as int) <= steps
            &&& selectable_between(rows, from as int, to as int) < steps ==> forall|j: int|
                to < j < rows.len() ==> (#[trigger] rows[j]).is_hidden_summary
        }),
    decreases steps,
{
    let n = next_selectable(rows, from + 1);
    lemma_next(rows, from + 1);
    lemma_between_none(rows, from as int, from as int);
    if steps == 0 || n >= rows.len() {
        assert forall|j: int| from < j < rows.len() && n >= rows.len() implies (
        #[trigger] rows[j]).is_hidden_summary by {
            assert(!selectable(rows, j));
        }
    } else {
        down_counts_rows(rows, n, (steps - 1) as nat);
        let to = stepped_down(rows, n, (steps - 1) as nat);
        lemma_between_one(rows, from as int);
        lemma_between_none(rows, from as int + 1, n as int);
        lemma_between_splits(rows, from as int, from as int + 1, n as int);
        lemma_between_splits(rows, from as int, n as int, to as int);
    }
}

/// Going up by some rows passes that many rows that can be selected, and stops at the
/// last of them; where there are fewer, at the first there is.
pub proof fn up_counts_rows(rows: Seq<RowView>, from: nat, steps: nat)
    requires
        can_be_selected(rows, from as int),
    ensures
        ({
            let to = stepped_up(rows, from, steps);
            &&& to <= from
            &&& !rows[to as int].is_hidden_summary
            &&& selectable_between(rows, to as int, from as int) <= steps
            &&& selectable_between(rows, to as int, from as int) < steps ==> forall|j: int|
                0 <= j < to ==> (#[trigger] rows[j]).is_hidden_summary
        }),
    decreases steps,
{
    lemma_prev(rows, from);
    lemma_between_none(rows, from as int, from as int);
    if steps > 0 {
        match prev_selectable(rows, from) {
            Some(p) => {
                up_counts_rows(rows, p, (steps - 1) as nat);
                let to = stepped_up(rows, p, (steps - 1) as nat);
                lemma_between_one(rows, p as int);
                lemma_between_none(rows, p as int + 1, from as int);
                lemma_between_splits(rows, p as int, p as int + 1, from as int);
                lemma_between_splits(rows, to as int, p as int, from as int);
            },
            None => {
                assert forall|j: int| 0 <= j < from implies (
                #[trigger] rows[j]).is_hidden_summary by {
                    assert(!selectable(rows, j));
                }
            },
        }
    }
}

/// How many rows a key goes down, or up where that is less than none.
pub open spec fn rows_of_key(a: AppView, key: KeyEvent) -> int {
    let half = if a.body_visible_rows / 2 < 1 {
        1
    } else {
        a.body_visible_rows as int / 2
    };
    match key.code {
        KeyCode::Down | KeyCode::Char('j') => 1,
        KeyCode::Up | KeyCode::Char('k') => -1,
        KeyCode::PageDown => half,
        KeyCode::PageUp => -half,
        _ => 0,
    }
}

/// The keys that move the selection go by one row, or by half a page, over rows that can
/// be selected, as far as there are any; nothing else changes.
pub proof fn keys_move_the_selection(a: AppView, key: KeyEvent, env: Env)
    requires
        key.press,
        !key.ctrl,
        key.code is Down || key.code is Up || key.code is PageDown || key.code is PageUp
            || key.code == KeyCode::Char('j') || key.code == KeyCode::Char('k'),
        a.screen == Screen::Main,
        a.editor is None && a.new_item is None && a.perms is None && a.spotlight is None,
        !a.filter.editing,
        can_be_selected(a.rows(), a.cursor as int),
    ensures
        ({
            let (b, e) = a.key_step(key, env);
            let n = rows_of_key(a, key);
            let rows = a.rows();
            &&& e is Nothing
            &&& b == (AppView { cursor: b.cursor, ..a })
            &&& b.cursor < rows.len()
            &&& !rows[b.cursor as int].is_hidden_summary
            &&& n > 0 ==> a.cursor <= b.cursor && {
                let passed = selectable_between(rows, a.cursor as int, b.cursor as int);
                passed <= n && (passed < n ==> forall|j: int|
                    b.cursor < j < rows.len() ==> (#[trigger] rows[j]).is_hidden_summary)
            }
            &&& n < 0 ==> b.cursor <= a.cursor && {
                let passed = selectable_between(rows, b.cursor as int, a.cursor as int);
                passed <= -n && (passed < -n ==> forall|j: int|
                    0 <= j < b.cursor ==> (#[trigger] rows[j]).is_hidden_summary)
            }
        }),
{
    reveal(AppView::main_step);
    reveal(AppView::move_step);
    down_counts_rows(a.rows(), a.cursor, 1);
    up_counts_rows(a.rows(), a.cursor, 1);
    down_counts_rows(a.rows(), a.cursor, a.half_page());
    up_counts_rows(a.rows(), a.cursor, a.half_page());
}

/// Home and end, like `g` and `G`, select the first and the last row that can be
/// selected.
pub proof fn ends_of_the_rows_are_reached(a: AppView, key: KeyEvent, env: Env)
    requires
        key.press,
        !key.ctrl,
        key.code is Home || key.code is End || key.code == KeyCode::Char('g') || key.code
            == KeyCode::Char('G'),
        a.screen == Screen::Main,
        a.editor is None && a.new_item is None && a.perms is None && a.spotlight is None,
        !a.filter.editing,
        can_be_selected(a.rows(), a.cursor as int),
    ensures
        ({
            let (b, e) = a.key_step(key, env);
            let rows = a.rows();
            &&& e is Nothing
            &&& b == (AppView { cursor: b.cursor, ..a })
            &&& b.cursor < rows.len()
            &&& !rows[b.cursor as int].is_hidden_summary
            &&& if key.code is Home || key.code == KeyCode::Char('g') {
                forall|j: int| 0 <= j < b.cursor ==> (#[trigger] rows[j]).is_hidden_summary
            } else {
                forall|j: int|
                    b.cursor < j < rows.len() ==> (#[trigger] rows[j]).is_hidden_summary
            }
        }),
{
    reveal(AppView::main_step);
    reveal(AppView::move_step);
    let rows = a.rows();
    lemma_next(rows, 0);
    lemma_prev(rows, rows.len());
    assert forall|j: int| 0 <= j < next_selectable(rows, 0) implies (
    #[trigger] rows[j]).is_hidden_summary by {
        assert(!selectable(rows, j));
    }
    match prev_selectable(rows, rows.len()) {
        Some(p) => {
            assert forall|j: int| p < j < rows.len() implies (
            #[trigger] rows[j]).is_hidden_summary by {
                assert(!selectable(rows, j));
            }
        },
        None => {
            assert(!selectable(rows, a.cursor as int));
        },
    }
    if next_selectable(rows, 0) >= rows.len() {
        assert(!selectable(rows, a.cursor as int));
    }
}

/// The wheel goes by three rows.
pub proof fn the_wheel_moves_the_selection(a: AppView, m: MouseEvent, now: u64)
    requires
        m.kind == MouseKind::ScrollDown || m.kind == MouseKind::ScrollUp,
        a.screen == Screen::Main,
        can_be_selected(a.rows(), a.cursor as int),
    ensures
        ({
            let (b, e) = a.mouse_step(m, now);
            let rows = a.rows();
            &&& e is Nothing
            &&& b == (AppView { cursor: b.cursor, ..a })
            &&& b.cursor < rows.len()
            &&& !rows[b.cursor as int].is_hidden_summary
            &&& if m.kind == MouseKind::ScrollDown {
                let passed = selectable_between(rows, a.cursor as int, b.cursor as int);
                a.cursor <= b.cursor && passed <= 3 && (passed < 3 ==> forall|j: int|
                    b.cursor < j < rows.len() ==> (#[trigger] rows[j]).is_hidden_summary)
            } else {
                let passed = selectable_between(rows, b.cursor as int, a.cursor as int);
                b.cursor <= a.cursor && passed <= 3 && (passed < 3 ==> forall|j: int|
                    0 <= j < b.cursor ==> (#[trigger] rows[j]).is_hidden_summary)
            }
        }),
{
    down_counts_rows(a.rows(), a.cursor, 3);
    up_counts_rows(a.rows(), a.cursor, 3);
}

} // verus!
