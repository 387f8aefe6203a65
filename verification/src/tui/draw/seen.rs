//! What is seen on the screen, and what a click on it does.

use vstd::prelude::*;

use crate::binary64::tenths_text;
use crate::cli::{Mode, SortBy, SortOrder};
use crate::display::{human_text, RowView};
use crate::editor::PromptView;
use crate::figures::number_read;
use crate::layout::Rect;
use crate::paths::same_components;
use crate::shares::{percentages_are_nearest, proportions_are_nearest};
use crate::style::SpanView;
use crate::text::{decimal_text, number_text, padded_start};
use crate::tui::draw::body::{body_line, max_scroll, percent_text, thumb_height, thumb_top};
use crate::tui::draw::bottom::{label_fits, segment_on, segments_on, SegmentView};
use crate::tui::draw::editor::{choice_style, prompt_on};
use crate::tui::draw::panels::{panel_rows, window};
use crate::tui::draw::picker::{entry_line, picker_rect};
use crate::tui::draw::screen::{centered, Parts};
use crate::tui::draw::title::{behind, pill_text};
use crate::tui::draw::{tail_cut, width_of, Picture};
use crate::tui::newitem::{Focus, NewItemView};
use crate::tui::perms::{cell_bit, mode_text, PermsView};
use crate::tui::spotlight::SpotlightView;
use crate::tui::{Action, AppView, HitRegion, Screen};
use crate::walker::{dir_total, file_total};

verus! {

// ---------------------------------------------------------------------------
// Rows
// ---------------------------------------------------------------------------

/// Behind a row with a name stands its share in the whole, to the nearest tenth of a
/// percent, where shares are asked for; else nothing stands behind it.
pub proof fn shares_stand_behind_rows(r: RowView, selected: bool, show: bool, whole: u64)
    requires
        0 < whole,
        r.size <= whole,
    ensures
        ({
            let line = body_line(r, selected, show, whole);
            if show && r.name.len() > 0 {
                &&& line.len() == r.line.len() + 3
                &&& exists|v: nat|
                    {
                        &&& line.last().content == #[trigger] padded_start(tenths_text(v), 5)
                            + seq!['%']
                        &&& 1000 * (v * whole) <= 1000 * (1000 * r.size) + 501 * whole
                        &&& 1000 * (v * whole) >= 1000 * (1000 * r.size) - 501 * whole
                    }
            } else {
                line.len() == r.line.len() + 1
            }
        }),
{
    percentages_are_nearest(r.size as nat, whole as nat, 10);
    let v = crate::binary64::scaled(
        crate::binary64::percent(r.size as nat, whole as nat),
        10,
    );
    assert(percent_text(r.size, whole) =~= padded_start(tenths_text(v), 5) + seq!['%']);
}

/// The thumb of a scrollbar is as long as the share of the rows that is seen, and as far
/// down as the share of the way that was scrolled, each to the nearest cell.
pub proof fn thumb_shows_what_is_seen(h: nat, total: nat, view: nat, scroll: nat)
    requires
        0 < h <= 65535,
        0 < view < total <= u64::MAX,
        scroll <= total - view,
    ensures
        ({
            let t = thumb_height(h, total, view);
            let top = thumb_top(h, total, view, scroll);
            let way = total - view;
            &&& 1 < t ==> 1000 * (t * total) <= 1000 * (h * view) + 501 * total
            &&& 1000 * (t * total) >= 1000 * (h * view) - 501 * total || t == h
            &&& t < h ==> 1000 * (top * way) <= 1000 * ((h - t) * scroll) + 501 * way
            &&& t < h && top < h - t ==> 1000 * (top * way) >= 1000 * ((h - t) * scroll) - 501
                * way
        }),
{
    proportions_are_nearest(view, total, h);
    let t = thumb_height(h, total, view);
    let c = crate::binary64::rounded(
        crate::binary64::product(
            crate::binary64::quotient(
                crate::binary64::nearest_of(view),
                crate::binary64::nearest_of(total),
            ),
            crate::binary64::nearest_of(h),
        ),
    );
    assert(1 < t ==> t <= c);
    assert(t < h ==> t >= c);
    assert(t <= c ==> t * total <= c * total) by (nonlinear_arith);
    assert(t >= c ==> t * total >= c * total) by (nonlinear_arith);
    let way = (total - view) as nat;
    assert(max_scroll(total, view) == way);
    if t < h {
        let room = (h - t) as nat;
        proportions_are_nearest(scroll, way, room);
        let d = crate::binary64::rounded(
            crate::binary64::product(
                crate::binary64::quotient(
                    crate::binary64::nearest_of(scroll),
                    crate::binary64::nearest_of(way),
                ),
                crate::binary64::nearest_of(room),
            ),
        );
        let top = thumb_top(h, total, view, scroll);
        assert(top <= d && (top < room ==> top == d));
        assert(top * way <= d * way) by (nonlinear_arith)
            requires
                top <= d,
        ;
    }
}

/// A text that is too long for its place keeps its end; what is left out is marked by an
/// ellipsis. One that fits is shown as it is.
pub proof fn long_texts_keep_their_end(s: Seq<char>, width: nat)
    ensures
        s.len() <= width ==> tail_cut(s, width) == s,
        s.len() > width && width > 0 ==> {
            let t = tail_cut(s, width);
            &&& t.len() == width
            &&& t[0] == '…'
            &&& forall|i: int| 1 <= i < width ==> #[trigger] t[i] == s[s.len() - width + i]
        },
{
    reveal_strlit("…");
}

/// Below the rows stands the path of the row that is selected, or that of the directory
/// where it has none.
pub proof fn the_selected_path_is_shown(a: AppView, p: Picture, area: Rect)
    ensures
        ({
            let q = a.selected_path_on(p, area);
            let w = q.widgets.last();
            let path = if a.cursor < a.rows().len() && a.rows()[a.cursor as int].path is Some {
                a.rows()[a.cursor as int].path->0
            } else {
                a.root.path@
            };
            &&& q.widgets.len() == p.widgets.len() + 1
            &&& q.hits == p.hits
            &&& w is Para
            &&& w->Para_rect == area
            &&& path.len() <= area.width ==> w->lines[0][0].content == path
        }),
{
}

// ---------------------------------------------------------------------------
// The status bar
// ---------------------------------------------------------------------------

/// A message is shown for three seconds, unless a scan runs, which is said instead.
pub proof fn messages_last_three_seconds(a: AppView, text: Seq<char>, at: u64, now: u64)
    requires
        a.status_msg == Some((text, at)),
        at <= now,
    ensures
        a.rescanning ==> a.message(now) == Some("Scanning…"@),
        !a.rescanning && now < at + 3_000_000_000 ==> a.message(now) == Some(text),
        !a.rescanning && now >= at + 3_000_000_000 ==> a.message(now) is None,
{
}

/// What the status bar says of a setting is how it is set, and a click on that switches
/// that setting over.
pub proof fn status_says_settings(a: AppView)
    ensures
        ({
            let s = a.segments();
            let v = a.config.view;
            let onoff = |on: bool| if on { "ON"@ } else { "OFF"@ };
            &&& s.len() == 7
            &&& s[0].action == Action::CycleSort
            &&& s[0].label == " sort: "@ + ((match a.config.sort {
                SortBy::Size => "size"@,
                SortBy::Name => "name"@,
            }) + " "@ + (match a.config.sort_order {
                SortOrder::Asc => "↑"@,
                SortOrder::Desc => "↓"@,
            })) + " "@
            &&& s[1].action == Action::SetMode(a.config.mode)
            &&& s[1].label == " mode: "@ + (match a.config.mode {
                Mode::Tree => "Tree"@,
                Mode::Bars => "Bars"@,
                Mode::Treemap => "Treemap"@,
                Mode::Flat => "Flat"@,
            }) + " "@
            &&& s[2].action == Action::ToggleHidden
            &&& s[2].label == " hidden: "@ + onoff(v.show_hidden) + " "@
            &&& s[3].action == Action::ToggleEmpty
            &&& s[3].label == " empty: "@ + (if v.show_empty {
                "shown"@
            } else {
                "hidden"@
            }) + " "@
            &&& s[4].action == Action::TogglePercent
            &&& s[4].label == " %: "@ + onoff(v.show_percent) + " "@
            &&& s[5].action == Action::ToggleModified
            &&& s[5].label == " mod: "@ + onoff(v.show_modified) + " "@
            &&& s[6].action == Action::Noop
            &&& s[6].label == " depth: "@ + decimal_text(a.config.depth as nat) + " "@
        }),
{
}

/// Whether segments are shown from column `x` on, as many as `k`, one after the other, and
/// each can be clicked where it is shown.
pub open spec fn segments_shown(
    p: Picture,
    q: Picture,
    row: Rect,
    segs: Seq<SegmentView>,
    k: int,
) -> bool {
    let (n, m) = (p.widgets.len() as int, p.hits.len() as int);
    &&& 0 <= k <= segs.len()
    &&& q.widgets.len() == n + k
    &&& q.hits.len() == m + k
    &&& p.widgets.is_prefix_of(q.widgets)
    &&& p.hits.is_prefix_of(q.hits)
    &&& forall|i: int|
        0 <= i < k ==> {
            let hit = #[trigger] q.hits[m + i];
            let w = q.widgets[n + i];
            &&& hit.action == segs[i].action
            &&& hit.rect.y == row.y
            &&& hit.rect.width == segs[i].label.len()
            &&& row.x <= hit.rect.x
            &&& hit.rect.x + hit.rect.width <= row.x + row.width
            &&& w is Para
            &&& w->Para_rect == hit.rect
            &&& w->lines == seq![seq![w->lines[0][0]]]
            &&& w->lines[0][0].content == segs[i].label
        }
    &&& forall|i: int, j: int|
        0 <= i < j < k ==> (#[trigger] q.hits[m + i]).rect.x + q.hits[m + i].rect.width < (
        #[trigger] q.hits[m + j]).rect.x
}

/// The segments are shown side by side, as many as there is room for, and each can be
/// clicked just where it is shown.
pub proof fn segments_are_clicked_where_they_are_shown(
    p: Picture,
    row: Rect,
    segs: Seq<SegmentView>,
)
    requires
        row.x + row.width < 65535,
        row.height > 0,
        forall|i: int| 0 <= i < segs.len() ==> (#[trigger] segs[i]).label.len() < 65535,
    ensures
        exists|k: int|
            #[trigger] segments_shown(p, segments_on(p, row, segs, 0, row.x).0, row, segs, k) && (k
                == segs.len() || row.x + row.width < segments_on(p, row, segs, 0, row.x).1
                + segs[k].label.len()),
{
    let k = lemma_segments(p, p, row, segs, 0, row.x);
}

proof fn lemma_segments(
    p: Picture,
    q: Picture,
    row: Rect,
    segs: Seq<SegmentView>,
    i: int,
    x: u16,
) -> (k: int)
    requires
        row.x + row.width < 65535,
        row.height > 0,
        forall|i: int| 0 <= i < segs.len() ==> (#[trigger] segs[i]).label.len() < 65535,
        segments_shown(p, q, row, segs, i),
        row.x <= x,
        forall|j: int|
            0 <= j < i ==> (#[trigger] q.hits[p.hits.len() + j]).rect.x + q.hits[p.hits.len()
                + j].rect.width < x,
    ensures
        ({
            let r = segments_on(q, row, segs, i, x);
            &&& segments_shown(p, r.0, row, segs, k)
            &&& k == segs.len() || row.x + row.width < r.1 + segs[k].label.len()
        }),
    decreases segs.len() - i,
{
    if i >= segs.len() || !label_fits(row, segs[i].label, x) {
        i
    } else {
        let next = segment_on(q, row, segs[i], x);
        let l = segs[i].label;
        let m = p.hits.len() as int;
        assert(width_of(l) == l.len());
        let rect = Rect::new(x, row.y, width_of(l), 1);
        assert(next.hits == q.hits.push(HitRegion { rect, action: segs[i].action }));
        assert(rect.width == l.len());
        assert(p.widgets.is_prefix_of(next.widgets));
        assert(p.hits.is_prefix_of(next.hits));
        assert forall|j: int| 0 <= j < i + 1 implies {
            let hit = #[trigger] next.hits[m + j];
            let w = next.widgets[p.widgets.len() + j];
            &&& hit.action == segs[j].action
            &&& hit.rect.y == row.y
            &&& hit.rect.width == segs[j].label.len()
            &&& row.x <= hit.rect.x
            &&& hit.rect.x + hit.rect.width <= row.x + row.width
            &&& w is Para
            &&& w->Para_rect == hit.rect
            &&& w->lines == seq![seq![w->lines[0][0]]]
            &&& w->lines[0][0].content == segs[j].label
        } by {
            if j < i {
                assert(next.hits[m + j] == q.hits[m + j]);
                assert(next.widgets[p.widgets.len() + j] == q.widgets[p.widgets.len() + j]);
            }
        }
        assert forall|a: int, b: int| 0 <= a < b < i + 1 implies (#[trigger] next.hits[m
            + a]).rect.x + next.hits[m + a].rect.width < (#[trigger] next.hits[m + b]).rect.x by {
            assert(next.hits[m + a] == q.hits[m + a]);
            if b < i {
                assert(next.hits[m + b] == q.hits[m + b]);
            }
        }
        assert(segments_shown(p, next, row, segs, i + 1));
        assert forall|j: int| 0 <= j < i + 1 implies (#[trigger] next.hits[p.hits.len()
            + j]).rect.x + next.hits[p.hits.len() + j].rect.width < behind(x, l) by {
            if j < i {
                assert(next.hits[m + j] == q.hits[m + j]);
            }
        }
        lemma_segments(p, next, row, segs, i + 1, behind(x, l))
    }
}

// ---------------------------------------------------------------------------
// The title bar
// ---------------------------------------------------------------------------

/// The title bar names the four modes, in order; a click on a name chooses that mode, and
/// the name of the mode that is shown stands out.
pub proof fn the_title_names_the_modes(a: AppView, area: Rect)
    requires
        60 <= area.width,
        area.x + area.width < 65535,
        area.y < 65535,
    ensures
        ({
            let q = a.title_on(Picture::empty(), area);
            let modes = seq![Mode::Tree, Mode::Bars, Mode::Treemap, Mode::Flat];
            &&& q.hits.len() >= 4
            &&& forall|i: int|
                0 <= i < 4 ==> {
                    let hit = #[trigger] q.hits[i];
                    let w = q.widgets[i + 1];
                    &&& hit.action == Action::SetMode(modes[i])
                    &&& w is Para
                    &&& w->Para_rect == hit.rect
                    &&& w->lines[0][0].content == pill_text(modes[i])
                    &&& hit.rect.width == pill_text(modes[i]).len()
                    &&& hit.rect.height == 1
                    &&& hit.rect.y == area.y
                    &&& hit.rect.within(area) || area.height == 0
                }
            &&& forall|i: int, j: int|
                0 <= i < j < 4 ==> {
                    &&& (#[trigger] q.hits[i]).rect.x + q.hits[i].rect.width < (
                    #[trigger] q.hits[j]).rect.x
                    &&& a.config.mode == modes[i] ==> q.widgets[i + 1]->lines[0][0].style
                        != q.widgets[j + 1]->lines[0][0].style
                }
        }),
{
    lemma_names();
    let q = a.title_on(Picture::empty(), area);
    let m = a.config.mode;
    let x0 = behind(area.x, " diskvis "@);
    let x1 = behind(x0, pill_text(Mode::Tree));
    let x2 = behind(x1, pill_text(Mode::Bars));
    let x3 = behind(x2, pill_text(Mode::Treemap));
    assert(x0 == area.x + 10 && x1 == area.x + 17 && x2 == area.x + 24 && x3 == area.x + 34);
}

proof fn lemma_names()
    ensures
        " diskvis "@.len() == 9,
        pill_text(Mode::Tree).len() == 6,
        pill_text(Mode::Bars).len() == 6,
        pill_text(Mode::Treemap).len() == 9,
        pill_text(Mode::Flat).len() == 6,
{
    reveal_strlit(" diskvis ");
    reveal_strlit(" ");
    reveal_strlit("Tree");
    reveal_strlit("Bars");
    reveal_strlit("Treemap");
    reveal_strlit("Flat");
}

// ---------------------------------------------------------------------------
// Panels
// ---------------------------------------------------------------------------

/// A window over a list shows its items from the first one on that is seen, as many as fit.
pub proof fn windows_show_items_in_a_row<T>(s: Seq<T>, from: nat, n: nat)
    ensures
        ({
            let w = window(s, from, n);
            &&& w.len() <= n
            &&& from < s.len() ==> w.len() == n || from + w.len() == s.len()
            &&& from >= s.len() ==> w.len() == 0
            &&& forall|k: int| 0 <= k < w.len() ==> from + k < s.len() && #[trigger] w[k] == s[from
                + k]
        }),
{
}

/// Below the heading, the list of warnings shows them from the first one on that is seen.
pub proof fn warnings_are_listed(a: AppView, popup: Rect, k: int)
    requires
        0 <= k,
        k + 5 < popup.height,
        a.warnings_scroll + k < a.warnings.len(),
    ensures
        ({
            let lines = a.warnings_lines(popup);
            &&& k + 3 < lines.len() <= popup.inside().height
            &&& lines[k + 3].len() == 1
            &&& lines[k + 3][0].content == a.warnings[a.warnings_scroll + k]
        }),
{
    windows_show_items_in_a_row(a.warnings, a.warnings_scroll, panel_rows(popup));
}

/// Below the heading, the settings panel shows its lines from the first one on that is
/// seen, the selected one marked; a click on a line enters that line.
pub proof fn settings_are_clicked_where_they_are_shown(a: AppView, popup: Rect, k: int)
    requires
        0 <= k,
        k + 5 < popup.height,
        a.settings_scroll + k < a.setting_items().len() <= usize::MAX,
        popup.x + popup.width < 65535,
        popup.y + popup.height < 65535,
        popup.height > 5,
        popup.width > 2,
    ensures
        ({
            let i = a.settings_scroll + k;
            let q = a.settings_on(Picture::empty(), popup);
            let w = q.widgets.last();
            let lines = w->lines;
            let kind = a.setting_items()[i].kind;
            &&& w is Para
            &&& k + 3 < lines.len() <= w->Para_rect.height
            &&& lines[k + 3].len() == 2
            &&& lines[k + 3][0].content == (if i == a.settings_cursor {
                "▶ "@
            } else {
                "  "@
            })
            &&& lines[k + 3][1].content == a.setting_items()[i].label
            &&& k < q.hits.len()
            &&& q.hits[k].rect.height == 1
            &&& q.hits[k].rect.x == w->Para_rect.x
            &&& q.hits[k].rect.width == w->Para_rect.width
            &&& q.hits[k].rect.y == w->Para_rect.y + k + 3
            &&& q.hits[k].action == (match kind {
                crate::tui::settings::SettingKind::ResetDefaults => Action::SettingsResetDefaults,
                crate::tui::settings::SettingKind::ClearFilter => Action::SettingsClearFilter,
                _ => Action::SettingsRow(i as usize),
            })
        }),
{
}

/// In the panel of permissions, a cell holds its letter where the permission is on, and is
/// empty where it is not; the three rows are those of the owner, the group and the others.
pub proof fn cells_show_the_bits(p: PermsView, root: bool, who: int, what: int)
    requires
        0 <= who < 3,
        0 <= what < 3,
    ensures
        ({
            let lines = p.perms_lines(root);
            let span = lines[3 + who][2 + 2 * what];
            let on = p.mode & cell_bit((3 * who + what) as nat) != 0;
            &&& span.content == (if on {
                seq!['[', seq!['r', 'w', 'x'][what], ']']
            } else {
                seq!['[', ' ', ']']
            })
            &&& lines[3 + who][1].content == (if who == 0 {
                "Owner "@
            } else if who == 1 {
                "Group "@
            } else {
                "Other "@
            })
        }),
{
    reveal_strlit("[ ]");
    assert("[ ]"@ =~= seq!['[', ' ', ']']);
}

/// The picker shows the entries that are on offer in a row, among them the selected one,
/// which alone is marked.
pub proof fn the_picker_shows_its_entries(s: SpotlightView, p: Picture, results: Rect, k: int)
    requires
        0 <= k < s.shown(results).len(),
        s.candidates.len() > 0,
    ensures
        ({
            let q = s.results_on(p, results);
            let w = q.widgets[p.widgets.len() + k];
            let i = s.first_shown(results) + k;
            &&& q.widgets.len() == p.widgets.len() + s.shown(results).len()
            &&& i < s.candidates.len()
            &&& w is Para
            &&& w->lines.len() == 1
            &&& w->lines[0][0].content == (if i == s.selected {
                "  ▸ "@
            } else {
                "    "@
            })
            &&& w->lines[0][1].content == s.candidates[i].path@
        }),
{
    windows_show_items_in_a_row(
        s.candidates,
        s.first_shown(results),
        s.entries_shown(results),
    );
    lemma_entries(s, p, results, s.shown(results).len(), k);
}

proof fn lemma_entries(s: SpotlightView, p: Picture, results: Rect, n: nat, k: int)
    requires
        0 <= k < n <= s.shown(results).len(),
    ensures
        ({
            let q = s.entries_on(p, results, n);
            let w = q.widgets[p.widgets.len() + k];
            let i = s.first_shown(results) + k;
            &&& q.widgets.len() == p.widgets.len() + n
            &&& w is Para
            &&& w->lines == seq![entry_line(s.shown(results)[k], i == s.selected)]
        }),
    decreases n,
{
    let m = (n - 1) as nat;
    if k < m {
        lemma_entries(s, p, results, m, k);
    } else {
        lemma_entries_len(s, p, results, m);
    }
}

proof fn lemma_entries_len(s: SpotlightView, p: Picture, results: Rect, n: nat)
    ensures
        s.entries_on(p, results, n).widgets.len() == p.widgets.len() + n,
    decreases n,
{
    if n > 0 {
        lemma_entries_len(s, p, results, (n - 1) as nat);
    }
}

/// The popup for a new entry shows what was typed into its fields, with a block behind the
/// one that has the focus, and why nothing was made, where that is so.
pub proof fn the_popup_shows_its_fields(n: NewItemView)
    ensures
        ({
            let lines = n.lines();
            &&& lines[0][1].content == n.name
            &&& lines[1][1].content == n.mode
            &&& lines[0].len() == 3 <==> n.focus == Focus::Name
            &&& lines[1].len() == 3 <==> n.focus == Focus::Mode
            &&& n.error matches Some(why) ==> lines[2].len() == 1 && lines[2][0].content == "  "@
                + why
            &&& n.error is None ==> lines[2].len() == 0
            &&& lines[4][1].content == " Create "@
            &&& lines[4][3].content == " Cancel "@
            &&& lines[4][1].style != lines[4][3].style <==> n.focus == Focus::Create || n.focus
                == Focus::Cancel
        }),
{
}

/// Rows of hidden and of empty entries are dimmed, and no others.
pub proof fn hidden_and_empty_rows_are_dimmed(r: RowView, selected: bool, show: bool, whole: u64)
    ensures
        ({
            let line = body_line(r, selected, show, whole);
            let faint = r.name.len() > 0 && (r.name[0] == '.' || r.size == 0);
            forall|i: int| 0 <= i < r.line.len() ==> {
                &&& faint ==> (#[trigger] line[i + 1]).style.add_modifier.dim
                &&& !faint ==> line[i + 1] == r.line[i]
            }
        }),
{
    let line = body_line(r, selected, show, whole);
    let faint = r.name.len() > 0 && (r.name[0] == '.' || r.size == 0);
    assert(faint == crate::tui::draw::body::is_dim(r));
    assert forall|i: int| 0 <= i < r.line.len() implies {
        &&& faint ==> (#[trigger] line[i + 1]).style.add_modifier.dim
        &&& !faint ==> line[i + 1] == r.line[i]
    } by {
        if faint {
            assert(line[i + 1] == crate::tui::draw::body::dimmed(r.line)[i]);
        }
    }
}

/// The filter bar shows what was typed, and how many of the rows that are shown are
/// entries below the directory.
pub proof fn the_filter_bar_counts_matches(a: AppView, p: Picture, area: Rect)
    ensures
        ({
            let w = a.filter_bar_on(p, area).widgets.last();
            let n = a.rows().filter(
                |r: RowView|
                    r.name.len() > 0 && !(r.path matches Some(q) && same_components(
                        q,
                        a.root.path@,
                    )),
            ).len();
            &&& w is Para
            &&& w->Para_rect == area
            &&& w->lines[0][2].content == a.filter.query
            &&& w->lines[0][5].content == "("@ + decimal_text(n) + " matches)"@
        }),
{
    let f = |r: RowView| crate::tui::draw::bottom::counts_as_match(r, a.root.path@);
    let g = |r: RowView|
        r.name.len() > 0 && !(r.path matches Some(q) && same_components(q, a.root.path@));
    assert(f =~= g);
}

/// Where there is no message, the status bar says where the tree is, how large it is, and
/// how many files and directories it has; where there are warnings, it says how many, and
/// a click on it shows them.
pub proof fn the_status_bar_says_totals(a: AppView, p: Picture, row: Rect, now: u64)
    requires
        a.message(now) is None,
    ensures
        ({
            let q = a.totals_on(p, row, now);
            let w = q.widgets.last();
            let line = w->lines[0];
            let n = a.warnings.len();
            &&& w is Para
            &&& w->Para_rect == row
            &&& line[1].content == a.root.path@
            &&& line[3].content == human_text(a.root.size)
            &&& line[4].content == "  |  files: "@ + decimal_text(file_total(a.root))
            &&& line[5].content == "  |  dirs: "@ + decimal_text(dir_total(a.root))
            &&& n == 0 ==> line[6].content.len() == 0 && q.hits == p.hits
            &&& n > 0 ==> line[6].content == "  ⚠ "@ + decimal_text(n) + " (w)"@ && q.hits
                == p.hits.push(HitRegion { rect: row, action: Action::OpenWarnings })
        }),
{
}

/// The panel of permissions says them in letters and as an octal number, and whose they
/// are.
pub proof fn the_panel_says_the_mode(p: PermsView, root: bool)
    ensures
        ({
            let lines = p.perms_lines(root);
            let octal = number_text(p.mode as nat, 8);
            &&& number_read(octal, 8) == p.mode
            &&& lines[1][1].content == mode_text(p.mode, p.is_dir) + "  ("@ + octal + ")"@
            &&& lines[0][1].content == p.owner_name + " ("@ + decimal_text(p.uid as nat) + ")"@
            &&& lines[0][4].content == p.group_name + " ("@ + decimal_text(p.gid as nat) + ")"@
        }),
{
    crate::figures::numbers_read_back(p.mode as nat, 8);
}

/// What is in front of the rows is in a box that says what it is; with nothing in front,
/// nothing is drawn over them.
pub proof fn panels_say_what_they_are(
    a: AppView,
    p: Picture,
    area: Rect,
    parts: Parts,
    lines: Seq<Seq<SpanView>>,
    root: bool,
)
    ensures
        ({
            let q = a.front_on(p, area, parts, lines, root);
            let n = p.widgets.len() as int;
            let titled = |t: Seq<char>|
                q.widgets.len() > n + 2 && q.widgets[n] is Clear && q.widgets[n + 1] is Block
                    && q.widgets[n + 1]->title.content == t;
            let text = q.widgets[n + 2]->lines;
            &&& a.screen == Screen::Main ==> q == p
            &&& a.screen == Screen::Help ==> titled(" Help "@) && text.len() > 30
            &&& a.screen == Screen::Settings ==> titled(" Settings "@)
            &&& a.screen == Screen::Warnings ==> titled(" Warnings "@) && q.hits == p.hits
            &&& a.screen == Screen::Permissions ==> (a.perms matches Some(s) ==> titled(
                " Permissions: "@ + s.path + " "@,
            ) && text == s.perms_lines(root))
            &&& a.screen == Screen::NewItem ==> (a.new_item matches Some(s) ==> titled(
                if s.is_dir {
                    " New directory "@
                } else {
                    " New file "@
                },
            ) && text == s.lines())
        }),
{
    reveal(AppView::front_on);
}

/// Shares refer to the size of the directory that is shown, or to one byte where it is
/// empty.
pub proof fn shares_refer_to_the_root(a: AppView)
    ensures
        a.root.size > 0 ==> a.whole_size() == a.root.size,
        a.root.size == 0 ==> a.whole_size() == 1,
{
}

/// A popup lies in the middle of the screen: it takes so many percent of it, to the
/// nearest cell or the next, with margins that differ by no more than one cell.
pub proof fn popups_are_in_the_middle(percent_x: u16, percent_y: u16, area: Rect)
    requires
        area.fits(),
        percent_x <= 100,
        percent_y <= 100,
    ensures
        ({
            let r = centered(percent_x, percent_y, area);
            let (left, right) = (r.x - area.x, area.x + area.width - (r.x + r.width));
            let (top, bottom) = (r.y - area.y, area.y + area.height - (r.y + r.height));
            &&& r.within(area)
            &&& -100 <= 100 * r.width - percent_x * area.width <= 100
            &&& -100 <= 100 * r.height - percent_y * area.height <= 100
            &&& percent_x % 2 == 0 ==> -1 <= left - right <= 1
            &&& percent_y % 2 == 0 ==> -1 <= top - bottom <= 1
        }),
{
    lemma_middle_part(percent_x as int, area.width as int);
    lemma_middle_part(percent_y as int, area.height as int);
}

proof fn lemma_middle_part(percent: int, extent: int)
    requires
        0 <= percent <= 100,
        0 <= extent <= 65535,
    ensures
        ({
            let m = (100 - percent) / 2;
            let a = (extent * m + 50) / 100;
            let b = (extent * (m + percent) + 50) / 100;
            &&& 0 <= a <= b <= extent
            &&& -100 <= 100 * (b - a) - percent * extent <= 100
            &&& percent % 2 == 0 ==> -1 <= a - (extent - b) <= 1
        }),
{
    let m = (100 - percent) / 2;
    let (p, q) = (extent * m, extent * (m + percent));
    assert(q == p + percent * extent) by (nonlinear_arith)
        requires
            p == extent * m,
            q == extent * (m + percent),
    ;
    assert(0 <= percent * extent) by (nonlinear_arith)
        requires
            0 <= percent,
            0 <= extent,
    ;
    assert(0 <= p && q <= extent * 100) by (nonlinear_arith)
        requires
            p == extent * m,
            q == extent * (m + percent),
            0 <= m,
            m + percent <= 100,
            0 <= extent,
    ;
    if percent % 2 == 0 {
        assert(p + q == extent * 100) by (nonlinear_arith)
            requires
                p == extent * m,
                q == extent * (m + percent),
                2 * m + percent == 100,
        ;
    }
}

/// The picker lies in the upper part of the screen, in the middle between its sides.
pub proof fn the_picker_is_at_the_top(area: Rect)
    requires
        area.fits(),
        area.width >= 40,
        area.height >= 18,
    ensures
        ({
            let r = picker_rect(area);
            let (left, right) = (r.x - area.x, area.x + area.width - (r.x + r.width));
            &&& r.within(area)
            &&& -1 <= left - right <= 1
            &&& r.height == 12
            &&& 6 * (r.y - area.y) <= area.height < 6 * (r.y - area.y + 1)
        }),
{
}

/// At the right end of the title bar are buttons for the help, for the settings and to
/// leave the program; between them and the modes is the path of the directory.
pub proof fn the_title_has_buttons_and_the_path(a: AppView, area: Rect)
    requires
        60 <= area.width,
        area.x + area.width < 65535,
        area.y < 65535,
    ensures
        ({
            let q = a.title_on(Picture::empty(), area);
            let labels = seq!["[?]"@, "[⚙]"@, "[✕]"@];
            let actions = seq![Action::OpenHelp, Action::OpenSettings, Action::Quit];
            let w = q.widgets.last();
            &&& q.hits.len() == 7
            &&& q.widgets.len() == 9
            &&& forall|i: int|
                0 <= i < 3 ==> {
                    let hit = #[trigger] q.hits[4 + i];
                    &&& hit.action == actions[i]
                    &&& q.widgets[5 + i] is Para
                    &&& q.widgets[5 + i]->Para_rect == hit.rect
                    &&& q.widgets[5 + i]->lines[0][0].content == labels[i]
                    &&& hit.rect.width == 3
                    &&& hit.rect.x == area.x + area.width - 11 + 4 * i
                    &&& hit.rect.y == area.y
                }
            &&& w is Para
            &&& w->Para_rect.x + w->Para_rect.width <= area.x + area.width - 11
            &&& a.root.path@.len() <= w->Para_rect.width ==> w->lines[0][0].content
                == a.root.path@
        }),
{
    lemma_names();
    reveal_strlit("[?]");
    reveal_strlit("[⚙]");
    reveal_strlit("[✕]");
    let q = a.title_on(Picture::empty(), area);
    let x0 = behind(area.x, " diskvis "@);
    let x1 = behind(x0, pill_text(Mode::Tree));
    let x2 = behind(x1, pill_text(Mode::Bars));
    let x3 = behind(x2, pill_text(Mode::Treemap));
    let x4 = behind(x3, pill_text(Mode::Flat));
    assert(x0 == area.x + 10 && x1 == area.x + 17 && x2 == area.x + 24 && x3 == area.x + 34 && x4
        == area.x + 41);
    long_texts_keep_their_end(a.root.path@, q.widgets.last()->Para_rect.width as nat);
}

/// The editor's prompts are shown with what was typed into them, and of their answers the
/// one that is selected stands out.
pub proof fn prompts_are_shown(p: Picture, area: Rect, popup: Rect, text: Seq<char>, selection: u8)
    requires
        selection <= 2,
    ensures
        ({
            let last = |v: PromptView| prompt_on(p, v, area, popup).widgets.last()->lines;
            let m = last(PromptView::Message { text });
            let g = last(PromptView::GotoLine { input: text });
            let u = last(PromptView::UnsavedClose { selection })[3];
            &&& m[0][0].content == " "@ + text + " "@
            &&& g[0][0].content == " Goto line: "@
            &&& g[0][2].content == text
            &&& u[1].content == " Save & Close "@
            &&& u[3].content == " Discard "@
            &&& u[5].content == " Cancel "@
            &&& forall|i: int, j: int|
                0 <= i < 3 && 0 <= j < 3 && i == selection && j != selection ==> (
                #[trigger] u[1 + 2 * i]).style != (#[trigger] u[1 + 2 * j]).style
        }),
{
    let u = prompt_on(p, PromptView::UnsavedClose { selection }, area, popup).widgets.last()->lines[3];
    assert(u[1].style == choice_style(selection == 0));
    assert(u[3].style == choice_style(selection == 1));
    assert(u[5].style == choice_style(selection == 2));
    assert(choice_style(true) != choice_style(false));
    assert forall|i: int, j: int|
        0 <= i < 3 && 0 <= j < 3 && i == selection && j != selection implies (#[trigger] u[1 + 2
        * i]).style != (#[trigger] u[1 + 2 * j]).style by {
        assert(i == 0 || i == 1 || i == 2);
        assert(j == 0 || j == 1 || j == 2);
    }
}

} // verus!
