//! What becomes of what was asked for, once the world has answered.

use vstd::prelude::*;

use crate::display::{rows_in_mode, RowView};
use crate::editor::file::{opened, FileRead, SaveOutcome};
use crate::keys::{MouseEvent, MouseKind};
use crate::text::decimal_text;
use crate::tui::navigate::EditorLoad;
use crate::tui::overlays::ApplyOutcome;
use crate::tui::perms::PermsStat;
use crate::tui::scans::{
    latest, lemma_oldest_in, oldest, same_place, stands_in, CachedView, RescanOutcome,
};
use crate::tui::{AppView, EffectView, Screen};
use crate::walker::{Node, ScanResult};

verus! {

// ---------------------------------------------------------------------------
// Rows and settings
// ---------------------------------------------------------------------------

/// The rows are rendered as the settings say, in the mode that is chosen, as wide as the
/// screen, and hidden entries become one row where they are not shown.
pub proof fn rows_follow_the_settings(a: AppView)
    ensures
        ({
            let o = a.render_opts();
            let c = a.config;
            &&& o.theme == c.theme
            &&& o.depth == c.depth
            &&& o.min_size == a.min_size
            &&& o.sort == c.sort
            &&& o.sort_order == c.sort_order
            &&& o.show_files == c.show_files
            &&& o.show_modified <==> c.show_modified || c.view.show_modified
            &&& o.width == a.last_size.0
            &&& c.view.show_hidden ==> o.hidden_summary is None
        }),
        forall|r: RowView| #[trigger]
            a.rows().contains(r) ==> rows_in_mode(
                a.root,
                a.render_opts(),
                a.config.mode,
            ).contains(r),
{
    let rows = rows_in_mode(a.root, a.render_opts(), a.config.mode);
    crate::lists::lemma_filter_passes(
        rows,
        |r: RowView| crate::tui::rows::row_kept(r, a.root.path@, a.config.view, a.query()),
    );
    assert forall|r: RowView| #[trigger] a.rows().contains(r) implies rows.contains(r) by {
        let i = choose|i: int| 0 <= i < a.rows().len() && a.rows()[i] == r;
        assert(rows.contains(a.rows()[i]));
    }
}

/// A filter is looked for only while it is active and not empty.
pub proof fn only_an_active_filter_counts(a: AppView)
    ensures
        a.query() is Some <==> a.filter.active && a.filter.query.len() > 0,
        a.query() is Some ==> a.query() == Some(a.filter.query),
{
}

/// The wheel goes three lines in the settings and in the warnings, but not beyond their
/// ends; with anything else in front it does nothing.
pub proof fn the_wheel_goes_three_lines(a: AppView, m: MouseEvent, now: u64)
    requires
        m.kind == MouseKind::ScrollDown || m.kind == MouseKind::ScrollUp,
        a.screen != Screen::Main,
        a.settings_cursor < a.setting_items().len(),
        a.warnings_scroll < a.warnings.len() || a.warnings_scroll == 0,
    ensures
        ({
            let (b, e) = a.mouse_step(m, now);
            let by: int = if m.kind == MouseKind::ScrollDown {
                3
            } else {
                -3
            };
            let kept = |to: int, n: int|
                if to < 0 || n == 0 {
                    0
                } else if to >= n {
                    n - 1
                } else {
                    to
                };
            &&& e is Nothing
            &&& a.screen == Screen::Settings ==> b == (AppView {
                settings_cursor: kept(
                    a.settings_cursor + by,
                    a.setting_items().len() as int,
                ) as nat,
                ..a
            })
            &&& a.screen == Screen::Warnings ==> b == (AppView {
                warnings_scroll: kept(a.warnings_scroll + by, a.warnings.len() as int) as nat,
                ..a
            })
            &&& a.screen != Screen::Settings && a.screen != Screen::Warnings ==> b == a
        }),
{
}

// ---------------------------------------------------------------------------
// Permissions and files
// ---------------------------------------------------------------------------

/// The permissions that are shown are those that were found, without the kind of the
/// entry; an owner or a group without a name is shown by its number. The cursor is on the
/// first button, and nothing is to be confirmed.
pub proof fn permissions_are_shown_as_found(a: AppView, path: Seq<char>, st: PermsStat, now: u64)
    ensures
        ({
            let b = a.perms_shown(path, Ok(st), now);
            let p = b.perms->0;
            &&& b == (AppView { perms: b.perms, screen: Screen::Permissions, ..a })
            &&& b.perms is Some
            &&& p.path == path
            &&& p.is_dir == st.is_dir
            &&& p.uid == st.uid
            &&& p.gid == st.gid
            &&& p.mode < 4096
            &&& p.mode as int == st.mode as int % 4096
            &&& st.owner matches Some(n) ==> p.owner_name == n@
            &&& st.owner is None ==> p.owner_name == decimal_text(st.uid as nat)
            &&& st.group matches Some(n) ==> p.group_name == n@
            &&& st.group is None ==> p.group_name == decimal_text(st.gid as nat)
            &&& p.cursor == 12
            &&& !p.confirm_recursive
        }),
{
    let m = st.mode;
    assert(m & 0o7777 == m % 4096) by (bit_vector);
}

/// Permissions that could not be found leave everything as it is, but for a message that
/// says why.
pub proof fn failures_to_find_permissions_are_said(
    a: AppView,
    path: Seq<char>,
    why: String,
    now: u64,
)
    ensures
        a.perms_shown(path, Err(why), now) == (AppView {
            status_msg: Some(("perms: stat "@ + path + ": "@ + why@, now)),
            ..a
        }),
{
}

/// A file that was saved is no longer changed, and its editor closes where that was asked
/// for; one that was not saved stays in the editor, as changed as it was.
pub proof fn only_saved_files_are_let_go(a: AppView, pid: u32, outcome: SaveOutcome, close: bool)
    requires
        a.editor is Some,
    ensures
        ({
            let b = a.file_kept(pid, outcome, close);
            let e = a.editor->0;
            &&& b.editor is None <==> close && outcome is Saved
            &&& b.editor matches Some(f) ==> {
                &&& b == (AppView { editor: Some(f), ..a })
                &&& f.lines == e.lines
                &&& f.row == e.row
                &&& f.col == e.col
                &&& f.undo == e.undo
                &&& f.modified <==> e.modified && outcome !is Saved
            }
            &&& b.editor is None ==> b.screen == Screen::Main
        }),
{
}

/// A typed path that is a directory is gone to, keeping the way back; any other keeps the
/// picker open, and that is said.
pub proof fn typed_directories_are_gone_to(a: AppView, path: Seq<char>, is_dir: bool, now: u64)
    ensures
        is_dir ==> a.typed_checked(path, is_dir, now) == (
            AppView { spotlight: None, nav_stack: a.nav_stack.push(a.root.path@), ..a },
            EffectView::Rescan { path },
        ),
        !is_dir ==> a.typed_checked(path, is_dir, now) == (
            AppView { status_msg: Some(("spotlight: no valid path"@, now)), ..a },
            EffectView::Nothing,
        ),
{
}

/// A parent that can be entered is gone to; the step that led from it is undone.
pub proof fn parents_that_are_there_are_gone_to(
    a: AppView,
    target: Seq<char>,
    pop: bool,
    is_dir: bool,
    now: u64,
)
    ensures
        ({
            let (b, e) = a.went_up_checked(target, pop, is_dir, now);
            let n = a.nav_stack.len();
            &&& b == (AppView { nav_stack: b.nav_stack, status_msg: b.status_msg, ..a })
            &&& b.nav_stack.is_prefix_of(a.nav_stack)
            &&& b.nav_stack.len() == (if pop && n > 0 {
                n - 1
            } else {
                n as int
            })
            &&& is_dir ==> e == (EffectView::Rescan { path: target }) && b.status_msg
                == a.status_msg
            &&& !is_dir ==> e is Nothing && b.status_msg == Some(
                ("cannot go up: "@ + target + " is not accessible"@, now),
            )
        }),
{
    if a.nav_stack.len() > 0 {
        assert(a.nav_stack.drop_last().is_prefix_of(a.nav_stack));
    }
    assert(a.nav_stack.is_prefix_of(a.nav_stack));
}

// ---------------------------------------------------------------------------
// Scans
// ---------------------------------------------------------------------------

/// A tree is shown again at once while it is less than half a minute old; where there is
/// none, an empty directory stands for what is to be scanned.
pub proof fn young_trees_are_shown_again(
    a: AppView,
    e: CachedView,
    i: int,
    now: u64,
    stand_in: Node,
)
    requires
        0 <= i < a.scan_cache.len(),
        a.scan_cache[i] == e,
        e.at <= now,
        !a.shows(e.root.path@),
        forall|j: int|
            0 <= j < a.scan_cache.len() && j != i ==> !same_place(
                (#[trigger] a.scan_cache[j]).root.path@,
                e.root.path@,
            ),
        stands_in(stand_in, e.root.path@),
    ensures
        ({
            let b = a.led_to(e.root.path@, now, stand_in);
            if now < e.at + 30_000_000_000 {
                &&& b.root == e.root
                &&& b.warnings == e.warnings
            } else {
                &&& b.root == stand_in
                &&& b.root.children@.len() == 0
                &&& b.warnings.len() == 0
            }
        }),
{
    lemma_found(a.scan_cache, e.root.path@, i);
}

proof fn lemma_found(c: Seq<CachedView>, path: Seq<char>, i: int)
    requires
        0 <= i < c.len(),
        same_place(c[i].root.path@, path),
        forall|j: int| 0 <= j < c.len() && j != i ==> !same_place((#[trigger] c[j]).root.path@, path),
    ensures
        crate::tui::scans::cached_at(c, path) == i,
    decreases c.len(),
{
    let d = c.drop_last();
    if i < c.len() - 1 {
        assert(c.last() == c[c.len() - 1]);
        assert forall|j: int| 0 <= j < d.len() && j != i implies !same_place(
            (#[trigger] d[j]).root.path@,
            path,
        ) by {
            assert(d[j] == c[j]);
        }
        lemma_found(d, path, i);
    }
}

/// Of too many trees the oldest go first: none that is kept is older than one that is let
/// go, and as many are kept as there is room for.
pub proof fn the_oldest_trees_go_first(c: Seq<CachedView>, n: nat, kept: int, gone: int)
    requires
        0 <= kept < latest(c, n).len(),
        0 <= gone < c.len(),
        !latest(c, n).contains(c[gone]),
    ensures
        c[gone].at <= latest(c, n)[kept].at,
        latest(c, n).len() == n,
    decreases c.len(),
{
    if c.len() > n {
        lemma_oldest_in(c);
        let k = oldest(c);
        let d = c.remove(k);
        let l = latest(d, n);
        assert(latest(c, n) == l);
        lemma_latest_len(d, n);
        lemma_latest_within(d, n);
        assert(d.contains(l[kept]));
        let m = choose|m: int| 0 <= m < d.len() && d[m] == l[kept];
        assert(d[m] == c[if m < k {
            m
        } else {
            m + 1
        }]);
        assert(c[k].at <= l[kept].at);
        if gone != k {
            let g = if gone < k {
                gone
            } else {
                gone - 1
            };
            assert(d[g] == c[gone]);
            the_oldest_trees_go_first(d, n, kept, g);
        }
    } else {
        assert(latest(c, n).contains(c[gone]));
    }
}

proof fn lemma_latest_len(c: Seq<CachedView>, n: nat)
    ensures
        latest(c, n).len() == (if c.len() <= n {
            c.len()
        } else {
            n
        }),
    decreases c.len(),
{
    if c.len() > n {
        lemma_oldest_in(c);
        lemma_latest_len(c.remove(oldest(c)), n);
    }
}

proof fn lemma_latest_within(c: Seq<CachedView>, n: nat)
    ensures
        forall|i: int| 0 <= i < latest(c, n).len() ==> c.contains(#[trigger] latest(c, n)[i]),
    decreases c.len(),
{
    if c.len() > n {
        lemma_oldest_in(c);
        let k = oldest(c);
        let d = c.remove(k);
        lemma_latest_within(d, n);
        assert forall|i: int| 0 <= i < latest(c, n).len() implies c.contains(
            #[trigger] latest(c, n)[i],
        ) by {
            assert(d.contains(latest(d, n)[i]));
            let m = choose|m: int| 0 <= m < d.len() && d[m] == latest(d, n)[i];
            assert(c[if m < k {
                m
            } else {
                m + 1
            }] == latest(c, n)[i]);
        }
    }
}

/// A scan that failed leaves the tree that is shown, and says why.
pub proof fn failed_scans_change_no_tree(
    a: AppView,
    path: Seq<char>,
    outcome: RescanOutcome,
    now: u64,
)
    requires
        outcome !is Scanned,
    ensures
        ({
            let b = a.rescanned(path, outcome, now);
            &&& b.root == a.root
            &&& b.warnings == a.warnings
            &&& b.scan_cache == a.scan_cache
            &&& b.cursor == a.cursor
            &&& b.nav_stack == a.nav_stack
            &&& b.status_msg == Some(
                (
                    match outcome {
                        RescanOutcome::Missing => "path no longer exists: "@ + path,
                        RescanOutcome::NotDir => "not a directory: "@ + path,
                        RescanOutcome::Failed(why) => "scan error: "@ + why@,
                        RescanOutcome::Scanned(_) => Seq::empty(),
                    },
                    now,
                ),
            )
        }),
{
}

/// What came of copying a path, of saving the settings and of applying permissions is
/// said, and nothing else changes.
pub proof fn outcomes_are_said(a: AppView, why: Seq<char>, now: u64)
    ensures
        ({
            let said = |t: Seq<char>| AppView { status_msg: Some((t, now)), ..a };
            &&& a.yanked(None, now) == said("yanked path to clipboard"@)
            &&& a.yanked(Some(why), now) == said("clipboard error: "@ + why)
            &&& a.settings_kept(None, now) == said(
                "Settings saved to ~/.config/diskvis/config.toml"@,
            )
            &&& a.settings_kept(Some(why), now) == said("Failed to save settings: "@ + why)
            &&& a.perms_written(None, now) == said("permissions applied"@)
            &&& a.perms_written(Some(why), now) == said("apply failed: "@ + why)
        }),
{
}

/// What came of applying permissions to everything below an entry is said, with the number
/// of entries or the reason.
pub proof fn recursive_outcomes_are_said(a: AppView, outcome: ApplyOutcome, now: u64)
    requires
        a.perms is Some,
    ensures
        a.perms_written_below(outcome, now) == (AppView {
            status_msg: Some(
                (
                    match outcome {
                        ApplyOutcome::Applied(n) => "applied to "@ + decimal_text(n as nat)
                            + " entries"@,
                        ApplyOutcome::Failed(why) => "apply failed: "@ + why@,
                        ApplyOutcome::Missing => "path no longer exists: "@ + a.perms->0.path,
                    },
                    now,
                ),
            ),
            ..a
        }),
{
}

/// A file that was read is shown in the editor; a directory, or a file that could not be
/// read, is not, and that is said.
pub proof fn only_files_are_edited(a: AppView, path: Seq<char>, load: EditorLoad, now: u64)
    ensures
        ({
            let b = a.file_shown(path, load, now);
            match load {
                EditorLoad::File(FileRead::Read { size, bytes }) => b == (AppView {
                    editor: Some(opened(path, size, bytes@)),
                    screen: Screen::Editor,
                    ..a
                }),
                EditorLoad::IsDir => b == (AppView {
                    status_msg: Some(("editor: cannot open a directory"@, now)),
                    ..a
                }),
                EditorLoad::File(FileRead::NoStat(why)) => b == (AppView {
                    status_msg: Some(
                        ("editor: "@ + ("cannot "@ + "stat"@ + " "@ + path + ": "@ + why@), now),
                    ),
                    ..a
                }),
                EditorLoad::File(FileRead::NoRead(why)) => b == (AppView {
                    status_msg: Some(
                        ("editor: "@ + ("cannot "@ + "read"@ + " "@ + path + ": "@ + why@), now),
                    ),
                    ..a
                }),
            }
        }),
{
}

/// Another place is shown from its top; the tree that was shown before is kept, unless it
/// was not to be shown again.
pub proof fn other_places_are_shown_from_their_top(
    a: AppView,
    path: Seq<char>,
    now: u64,
    stand_in: Node,
)
    requires
        !a.shows(path),
    ensures
        ({
            let b = a.led_to(path, now, stand_in);
            &&& b.cursor == 0
            &&& b.scroll == 0
            &&& b.warnings_scroll == 0
            &&& b.config == a.config
            &&& b.nav_stack == a.nav_stack
            &&& a.root_at matches Some(at) ==> b.scan_cache.len() > 0 && b.scan_cache.last() == (
            CachedView { root: a.root, warnings: a.warnings, at })
        }),
{
}

/// The end of a scan is the end of waiting only where it is the one that is waited for.
pub proof fn only_the_awaited_scan_ends_the_wait(
    a: AppView,
    path: Seq<char>,
    s: ScanResult,
    now: u64,
)
    requires
        a.scan_target is Some,
    ensures
        ({
            let b = a.rescanned(path, RescanOutcome::Scanned(s), now);
            if same_place(a.scan_target->0, path) {
                b.scan_target is None && !b.rescanning
            } else {
                b.scan_target == a.scan_target && b.rescanning == a.rescanning
            }
        }),
{
    let t = a.tree_taken(path, s, now);
    assert(t.scan_target == a.scan_target);
    assert(t.rescanning == a.rescanning);
}

/// While a place is being scanned, going there again starts no second scan; else it does,
/// and that is said, with the place and the depth that is shown.
pub proof fn scans_are_begun_once(a: AppView, path: Seq<char>, now: u64, stand_in: Node)
    ensures
        ({
            let b = a.scan_begun(path, now, stand_in);
            let running = a.scan_target matches Some(t) && same_place(t, path);
            &&& running ==> b.scan_target == a.scan_target && b.status_msg == a.status_msg
            &&& !running ==> {
                &&& b.scan_target == Some(path)
                &&& b.rescanning
                &&& b.status_msg == Some(
                    (
                        "scan: "@ + path + " (render depth "@ + decimal_text(
                            a.config.depth as nat,
                        ) + ")"@,
                        now,
                    ),
                )
            }
        }),
{
}

} // verus!
