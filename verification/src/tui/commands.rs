//! What keys and clicks do, where nothing is in front of the rows and where something is.

use vstd::prelude::*;

use crate::cli::{Mode, SortBy, SortOrder};
use crate::config::{default_config, ConfigView, Theme, ViewOptions};
use crate::editor::{EditorAction, EditorOutcome, EditorView};
use crate::keys::{KeyCode, KeyEvent, MouseEvent, MouseKind};
use crate::paths::{file_name_of, parent_of};
use crate::text::decimal_text;
use crate::tui::mouse::{first_region_is_clicked, point_in};
use crate::tui::overlays::single_slashes;
use crate::tui::scans::same_place;
use crate::tui::spotlight::split_typed;
use crate::tui::{Action, AppView, EffectView, Env, FilterView, Screen};

verus! {

/// Whether keys go to what is on the screen: nothing is open that takes them.
pub open spec fn nothing_open(a: AppView) -> bool {
    &&& a.editor is None
    &&& a.new_item is None
    &&& a.perms is None
    &&& a.spotlight is None
}

/// Whether keys go to the rows.
pub open spec fn rows_take_keys(a: AppView) -> bool {
    &&& nothing_open(a)
    &&& a.screen == Screen::Main
    &&& !a.filter.editing
}

/// A key that was pressed without any other held.
pub open spec fn pressed(code: KeyCode) -> KeyEvent {
    KeyEvent { code, ctrl: false, shift: false, press: true }
}

/// A character that was typed.
pub open spec fn typed(c: char) -> KeyEvent {
    pressed(KeyCode::Char(c))
}

/// The state after a key.
pub open spec fn after(a: AppView, key: KeyEvent, env: Env) -> AppView {
    a.key_step(key, env).0
}

/// What is asked for by a key.
pub open spec fn asked(a: AppView, key: KeyEvent, env: Env) -> EffectView {
    a.key_step(key, env).1
}

/// Whether nothing changed but the settings and the message.
pub open spec fn only_settings_changed(a: AppView, b: AppView) -> bool {
    b == (AppView { config: b.config, status_msg: b.status_msg, ..a })
}

/// The digits from one to four choose the tree, the bars, the treemap and the flat list,
/// and change nothing else.
pub proof fn digits_choose_the_mode(a: AppView, env: Env)
    requires
        rows_take_keys(a),
    ensures
        forall|c: char| '1' <= c <= '4' ==> {
            let b = #[trigger] after(a, typed(c), env);
            &&& asked(a, typed(c), env) is Nothing
            &&& b == (AppView { config: ConfigView { mode: b.config.mode, ..a.config }, ..a })
        },
        after(a, typed('1'), env).config.mode == Mode::Tree,
        after(a, typed('2'), env).config.mode == Mode::Bars,
        after(a, typed('3'), env).config.mode == Mode::Treemap,
        after(a, typed('4'), env).config.mode == Mode::Flat,
{
    reveal(AppView::main_step);
    reveal(AppView::look_step);
}

/// Plus shows one level more and minus one less, as far as there is one, and neither
/// changes anything else.
pub proof fn plus_and_minus_change_the_depth(a: AppView, env: Env)
    requires
        rows_take_keys(a),
    ensures
        ({
            let b = after(a, typed('+'), env);
            &&& asked(a, typed('+'), env) is Nothing
            &&& b == (AppView { config: ConfigView { depth: b.config.depth, ..a.config }, ..a })
            &&& a.config.depth < usize::MAX ==> b.config.depth == a.config.depth + 1
        }),
        ({
            let b = after(a, typed('-'), env);
            &&& asked(a, typed('-'), env) is Nothing
            &&& b == (AppView { config: ConfigView { depth: b.config.depth, ..a.config }, ..a })
            &&& a.config.depth > 0 ==> b.config.depth == a.config.depth - 1
            &&& a.config.depth == 0 ==> b.config.depth == 0
        }),
{
    reveal(AppView::main_step);
    reveal(AppView::look_step);
}

/// The keys that switch hidden entries, empty directories, percentages, dates and files
/// over change that setting and no other.
pub proof fn letters_switch_settings_over(a: AppView, env: Env)
    requires
        rows_take_keys(a),
    ensures
        forall|c: char| c == '.' || c == 'h' || c == 'd' || c == 'p' || c == 'm' || c == 'f' ==> {
            &&& asked(a, typed(c), env) is Nothing
            &&& only_settings_changed(a, #[trigger] after(a, typed(c), env))
        },
        forall|c: char| c == '.' || c == 'h' ==> (#[trigger] after(a, typed(c), env)).config == (
        ConfigView {
            view: ViewOptions { show_hidden: !a.config.view.show_hidden, ..a.config.view },
            ..a.config
        }),
        after(a, typed('d'), env).config == (ConfigView {
            view: ViewOptions { show_empty: !a.config.view.show_empty, ..a.config.view },
            ..a.config
        }),
        after(a, typed('p'), env).config == (ConfigView {
            view: ViewOptions { show_percent: !a.config.view.show_percent, ..a.config.view },
            ..a.config
        }),
        after(a, typed('m'), env).config == (ConfigView {
            view: ViewOptions { show_modified: !a.config.view.show_modified, ..a.config.view },
            show_modified: !a.config.view.show_modified,
            ..a.config
        }),
        after(a, typed('f'), env).config == (ConfigView {
            show_files: !a.config.show_files,
            ..a.config
        }),
{
    reveal(AppView::main_step);
    reveal(AppView::view_step);
    reveal(AppView::look_step);
}

/// What is said when something was switched over is what it is afterwards.
pub proof fn messages_say_what_was_switched(a: AppView, env: Env)
    requires
        rows_take_keys(a),
    ensures
        ({
            let says = |what: Seq<char>, on: bool|
                Some((what + (if on {
                    "ON"@
                } else {
                    "OFF"@
                }), env.now));
            let v = |c: char| after(a, typed(c), env);
            &&& v('h').status_msg == says("hidden files: "@, v('h').config.view.show_hidden)
            &&& v('d').status_msg == says("empty dirs: "@, v('d').config.view.show_empty)
            &&& v('p').status_msg == says("percent column: "@, v('p').config.view.show_percent)
            &&& v('m').status_msg == says("modified column: "@, v('m').config.view.show_modified)
        }),
{
    reveal(AppView::main_step);
    reveal(AppView::view_step);
}

/// The order goes on from the largest first to the smallest first, to the names from the
/// first on, to the names from the last on, and to the largest first again; the colors go
/// on from the usual ones to the strong ones, to none, and to the usual ones again.
pub proof fn orders_and_colors_go_round(a: AppView, env: Env)
    requires
        rows_take_keys(a),
    ensures
        ({
            let b = after(a, typed('s'), env);
            let (f, g) = (a.config, b.config);
            &&& asked(a, typed('s'), env) is Nothing
            &&& b == (AppView {
                config: ConfigView { sort: g.sort, sort_order: g.sort_order, ..f },
                ..a
            })
            &&& g.sort == f.sort <==> (f.sort_order == SortOrder::Desc <==> f.sort == SortBy::Size)
            &&& g.sort_order == f.sort_order <==> g.sort != f.sort
        }),
        ({
            let b = after(a, typed('c'), env);
            &&& asked(a, typed('c'), env) is Nothing
            &&& only_settings_changed(a, b)
            &&& b.config == (ConfigView { theme: b.config.theme, ..a.config })
            &&& a.config.theme == Theme::Default ==> b.config.theme == Theme::HighContrast
            &&& a.config.theme == Theme::HighContrast ==> b.config.theme == Theme::Monochrome
            &&& a.config.theme == Theme::Monochrome ==> b.config.theme == Theme::Default
        }),
{
    reveal(AppView::main_step);
    reveal(AppView::look_step);
}

/// The keys that edit, inspect, open and copy ask for that with the path of the row that
/// is selected. Where it has none, that is said instead.
pub proof fn keys_take_the_selected_entry(a: AppView, env: Env)
    requires
        rows_take_keys(a),
        a.cursor < a.rows().len(),
        !a.rows()[a.cursor as int].is_hidden_summary,
    ensures
        forall|c: char| c == 'e' || c == 'i' || c == 'o' || c == 'y' ==> {
            let b = #[trigger] after(a, typed(c), env);
            if a.rows()[a.cursor as int].path is Some {
                b == a
            } else {
                &&& asked(a, typed(c), env) is Nothing
                &&& b == (AppView { status_msg: Some(("nothing selected"@, env.now)), ..a })
            }
        },
        a.rows()[a.cursor as int].path matches Some(p) ==> {
            &&& asked(a, typed('e'), env) == (EffectView::OpenEditor { path: p })
            &&& asked(a, typed('i'), env) == (EffectView::OpenPerms { path: p })
            &&& asked(a, typed('o'), env) == (EffectView::OpenExternal { path: p })
            &&& asked(a, typed('y'), env) == (EffectView::Yank { text: p })
        },
{
    reveal(AppView::main_step);
    reveal(AppView::entry_step);
}

/// Excluding adds the name of the row that is selected to what is left out in this
/// session, once, and has the directory scanned again.
pub proof fn exclusion_adds_the_selected_name(a: AppView, env: Env, path: Seq<char>)
    requires
        rows_take_keys(a),
        a.cursor < a.rows().len(),
        !a.rows()[a.cursor as int].is_hidden_summary,
        a.rows()[a.cursor as int].path == Some(path),
        file_name_of(path) is Some,
    ensures
        ({
            let b = after(a, typed('x'), env);
            let name = file_name_of(path)->0;
            let (s, t) = (a.session_excludes, b.session_excludes);
            &&& asked(a, typed('x'), env) == (EffectView::Rescan { path: a.root.path@ })
            &&& b == (AppView { session_excludes: t, status_msg: b.status_msg, ..a })
            &&& t.contains(name)
            &&& s.is_prefix_of(t)
            &&& t.len() == s.len() + (if s.contains(name) {
                0nat
            } else {
                1
            })
        }),
{
    reveal(AppView::main_step);
    reveal(AppView::entry_step);
    let b = after(a, typed('x'), env);
    let name = file_name_of(path)->0;
    if !a.session_excludes.contains(name) {
        assert(b.session_excludes == a.session_excludes.push(name));
        assert(b.session_excludes.last() == name);
        assert(a.session_excludes.is_prefix_of(b.session_excludes));
    }
}

/// The keys for help, warnings, settings and the filter bring that in front, from its
/// start, and change nothing else.
pub proof fn keys_bring_panels_in_front(a: AppView, env: Env)
    requires
        rows_take_keys(a),
    ensures
        forall|c: char|
            c == '?' || c == 'w' || c == 'S' || c == '/' ==> #[trigger] asked(
                a,
                typed(c),
                env,
            ) is Nothing,
        after(a, typed('?'), env) == (AppView { screen: Screen::Help, ..a }),
        after(a, typed('w'), env) == (AppView {
            screen: Screen::Warnings,
            warnings_scroll: 0,
            ..a
        }),
        after(a, typed('S'), env) == (AppView {
            screen: Screen::Settings,
            settings_cursor: 0,
            settings_scroll: 0,
            ..a
        }),
        after(a, typed('/'), env) == (AppView {
            filter: FilterView { query: a.filter.query, active: true, editing: true },
            ..a
        }),
{
    reveal(AppView::main_step);
    reveal(AppView::front_step);
}

/// The keys for a new file and a new directory open the popup for one in the directory
/// that is shown.
pub proof fn keys_start_new_entries(a: AppView, env: Env)
    requires
        rows_take_keys(a),
    ensures
        forall|c: char| c == 'n' || c == 'N' ==> {
            let b = #[trigger] after(a, typed(c), env);
            &&& asked(a, typed(c), env) is Nothing
            &&& b == (AppView { new_item: b.new_item, screen: Screen::NewItem, ..a })
            &&& b.new_item matches Some(n) && n.parent == a.root.path@ && n.is_dir == (c == 'N')
                && n.name.len() == 0
        },
{
    reveal(AppView::main_step);
}

/// One key leads home, keeping the way back; one has the directory scanned again, with
/// nothing kept of earlier scans; two lead to the parent.
pub proof fn keys_lead_elsewhere(a: AppView, env: Env)
    requires
        rows_take_keys(a),
    ensures
        env.home_text() matches Some(h) ==> {
            &&& asked(a, typed('~'), env) == (EffectView::Rescan { path: h })
            &&& after(a, typed('~'), env) == (AppView {
                nav_stack: a.nav_stack.push(a.root.path@),
                ..a
            })
        },
        env.home_text() is None ==> asked(a, typed('~'), env) is Nothing && after(
            a,
            typed('~'),
            env,
        ) == a,
        asked(a, typed('r'), env) == (EffectView::Rescan { path: a.root.path@ }),
        after(a, typed('r'), env) == (AppView { root_at: None, scan_cache: Seq::empty(), ..a }),
        parent_of(a.root.path@) matches Some(p) ==> {
            &&& asked(a, typed('u'), env) is GoUp
            &&& asked(a, typed('u'), env)->target == p
            &&& asked(a, typed('u'), env)->pop <==> a.nav_stack.len() > 0 && same_place(
                a.nav_stack.last(),
                p,
            )
            &&& after(a, typed('u'), env) == a
        },
        parent_of(a.root.path@) is None ==> {
            &&& asked(a, typed('u'), env) is Nothing
            &&& after(a, typed('u'), env) == (AppView {
                status_msg: Some(("already at filesystem root"@, env.now)),
                ..a
            })
        },
        a.key_step(pressed(KeyCode::Backspace), env) == a.key_step(typed('u'), env),
{
    reveal(AppView::main_step);
    reveal(AppView::travel_step);
}

/// Two keys leave the program, and change nothing.
pub proof fn keys_quit(a: AppView, key: KeyEvent, env: Env)
    requires
        rows_take_keys(a),
        key.press,
        key.code == KeyCode::Char('q') || (key.code == KeyCode::Char('c') && key.ctrl),
    ensures
        a.key_step(key, env) == (a, EffectView::Quit),
{
    reveal(AppView::main_step);
}

/// Escape takes the filter away, and says so where there was one.
pub proof fn escape_takes_the_filter_away(a: AppView, env: Env)
    requires
        rows_take_keys(a),
    ensures
        ({
            let b = after(a, pressed(KeyCode::Esc), env);
            &&& asked(a, pressed(KeyCode::Esc), env) is Nothing
            &&& b.query() is None
            &&& b == (AppView { filter: b.filter, status_msg: b.status_msg, ..a })
            &&& a.filter.active ==> b.status_msg == Some(("filter cleared"@, env.now))
                && b.filter.query.len() == 0
            &&& !a.filter.active ==> b == a
        }),
{
    reveal(AppView::main_step);
}

/// While the filter is typed, a character is added to it, one is taken back, it is kept or
/// it is taken away; nothing else changes.
pub proof fn typing_changes_the_filter(a: AppView, env: Env)
    requires
        nothing_open(a),
        a.screen == Screen::Main,
        a.filter.editing,
    ensures
        forall|c: char| {
            let b = #[trigger] after(a, typed(c), env);
            &&& asked(a, typed(c), env) is Nothing
            &&& b == (AppView { filter: FilterView { query: b.filter.query, ..a.filter }, ..a })
            &&& b.filter.query.len() == a.filter.query.len() + 1
            &&& a.filter.query.is_prefix_of(b.filter.query)
            &&& b.filter.query.last() == c
        },
        ({
            let b = after(a, pressed(KeyCode::Backspace), env);
            &&& b == (AppView { filter: FilterView { query: b.filter.query, ..a.filter }, ..a })
            &&& b.filter.query.is_prefix_of(a.filter.query)
            &&& a.filter.query.len() > 0 ==> b.filter.query.len() == a.filter.query.len() - 1
        }),
        ({
            let b = after(a, pressed(KeyCode::Enter), env);
            &&& b == (AppView { filter: b.filter, ..a })
            &&& !b.filter.editing
            &&& b.query() == a.query()
        }),
        ({
            let b = after(a, pressed(KeyCode::Esc), env);
            &&& b == (AppView { filter: b.filter, ..a })
            &&& !b.filter.editing
            &&& b.query() is None
        }),
{
    let q = a.filter.query;
    assert forall|c: char| {
        let b = #[trigger] after(a, typed(c), env);
        &&& asked(a, typed(c), env) is Nothing
        &&& b == (AppView { filter: FilterView { query: b.filter.query, ..a.filter }, ..a })
        &&& b.filter.query.len() == q.len() + 1
        &&& q.is_prefix_of(b.filter.query)
        &&& b.filter.query.last() == c
    } by {
        assert(q.push(c).last() == c);
        assert(q.is_prefix_of(q.push(c)));
    }
    if q.len() > 0 {
        assert(q.drop_last().is_prefix_of(q));
    } else {
        assert(q.is_prefix_of(q));
    }
}

/// What is added to a filter is taken back by the next key for it.
pub proof fn taking_back_reverts_typing(a: AppView, c: char, env: Env)
    requires
        nothing_open(a),
        a.screen == Screen::Main,
        a.filter.editing,
    ensures
        after(after(a, typed(c), env), pressed(KeyCode::Backspace), env) == a,
{
    assert(a.filter.query.push(c).drop_last() =~= a.filter.query);
}

/// Any key takes the help away, and does nothing else.
pub proof fn any_key_closes_help(a: AppView, key: KeyEvent, env: Env)
    requires
        nothing_open(a),
        a.screen == Screen::Help,
        key.press,
    ensures
        a.key_step(key, env) == (AppView { screen: Screen::Main, ..a }, EffectView::Nothing),
{
}

/// The number of steps that a key goes in a list, down or up.
pub open spec fn list_steps(code: KeyCode) -> int {
    match code {
        KeyCode::Down | KeyCode::Char('j') => 1,
        KeyCode::Up | KeyCode::Char('k') => -1,
        KeyCode::PageDown => 10,
        KeyCode::PageUp => -10,
        _ => 0,
    }
}

/// In the list of warnings, keys go one or ten on or back, but not beyond its ends.
pub proof fn keys_move_in_warnings(a: AppView, code: KeyCode, env: Env)
    requires
        nothing_open(a),
        a.screen == Screen::Warnings,
        a.warnings_scroll < a.warnings.len(),
        list_steps(code) != 0,
    ensures
        ({
            let b = after(a, pressed(code), env);
            let to = a.warnings_scroll + list_steps(code);
            &&& asked(a, pressed(code), env) is Nothing
            &&& b == (AppView { warnings_scroll: b.warnings_scroll, ..a })
            &&& 0 <= to < a.warnings.len() ==> b.warnings_scroll == to
            &&& to < 0 ==> b.warnings_scroll == 0
            &&& to >= a.warnings.len() ==> b.warnings_scroll == a.warnings.len() - 1
        }),
{
}

/// In the settings, keys go one or ten lines on or back, but not beyond the ends.
pub proof fn keys_move_in_settings(a: AppView, code: KeyCode, env: Env)
    requires
        nothing_open(a),
        a.screen == Screen::Settings,
        a.settings_cursor < a.setting_items().len(),
        list_steps(code) != 0,
    ensures
        ({
            let b = after(a, pressed(code), env);
            let n = a.setting_items().len();
            let to = a.settings_cursor + list_steps(code);
            &&& asked(a, pressed(code), env) is Nothing
            &&& b == (AppView { settings_cursor: b.settings_cursor, ..a })
            &&& 0 <= to < n ==> b.settings_cursor == to
            &&& to < 0 ==> b.settings_cursor == 0
            &&& to >= n ==> b.settings_cursor == n - 1
        }),
{
}

/// Leaving the settings has them saved.
pub proof fn settings_are_saved(a: AppView, code: KeyCode, env: Env)
    requires
        nothing_open(a),
        a.screen == Screen::Settings,
        code == KeyCode::Esc || code == KeyCode::Char('q') || code == KeyCode::Char('S'),
    ensures
        a.key_step(pressed(code), env) == (
            AppView { screen: Screen::Main, ..a },
            EffectView::SaveSettings,
        ),
{
}

/// A line of the settings says how something is set, and entering it switches that over;
/// the line then says so.
pub proof fn settings_say_what_they_switch(a: AppView, env: Env)
    requires
        nothing_open(a),
        a.screen == Screen::Settings,
        1 <= a.settings_cursor <= 5,
    ensures
        ({
            let (i, c, v) = (a.settings_cursor as int, a.config, a.config.view);
            let b = after(a, pressed(KeyCode::Enter), env);
            let says = |on: bool| if on { "ON"@ } else { "OFF"@ };
            let label = a.setting_items()[i].label;
            &&& asked(a, pressed(KeyCode::Enter), env) is Nothing
            &&& b == (AppView { config: b.config, ..a })
            &&& i == 1 ==> label == "Show modified date: "@ + says(
                v.show_modified || c.show_modified,
            ) && b.config == (ConfigView {
                view: ViewOptions { show_modified: !v.show_modified, ..v },
                show_modified: !v.show_modified,
                ..c
            })
            &&& i == 2 ==> label == "Show hidden files: "@ + says(v.show_hidden) && b.config == (
            ConfigView { view: ViewOptions { show_hidden: !v.show_hidden, ..v }, ..c })
            &&& i == 3 ==> label == "Show empty dirs: "@ + says(v.show_empty) && b.config == (
            ConfigView { view: ViewOptions { show_empty: !v.show_empty, ..v }, ..c })
            &&& i == 4 ==> label == "Show percentage column: "@ + says(v.show_percent)
                && b.config == (ConfigView {
                view: ViewOptions { show_percent: !v.show_percent, ..v },
                ..c
            })
            &&& i == 5 ==> label == "Show files: "@ + says(c.show_files) && b.config == (
            ConfigView { show_files: !c.show_files, ..c })
        }),
{
    assert(a.setting_items()[a.settings_cursor as int] == a.fixed_settings()[a.settings_cursor as int]);
}

/// The lines of the patterns follow; one says whether its pattern is in force, and
/// entering it switches that over and has the directory scanned again. The last line sets
/// everything back but the patterns.
pub proof fn settings_switch_patterns(a: AppView, i: int, env: Env)
    requires
        nothing_open(a),
        a.screen == Screen::Settings,
        a.config.parallel(),
        0 <= i < a.config.excludes.len() <= usize::MAX,
        a.settings_cursor == 7 + i + (if a.query() is Some {
            1int
        } else {
            0
        }),
    ensures
        ({
            let c = a.config;
            let line = a.setting_items()[a.settings_cursor as int].label;
            let b = after(a, pressed(KeyCode::Enter), env);
            &&& line == (if c.excludes_enabled[i] {
                "Exclude  [x]  "@
            } else {
                "Exclude  [ ]  "@
            }) + c.excludes[i]
            &&& b == (AppView {
                config: ConfigView { excludes_enabled: b.config.excludes_enabled, ..c },
                ..a
            })
            &&& b.config.excludes_enabled.len() == c.excludes_enabled.len()
            &&& forall|j: int|
                0 <= j < c.excludes.len() ==> (#[trigger] b.config.excludes_enabled[j]
                    != c.excludes_enabled[j] <==> j == i)
            &&& asked(a, pressed(KeyCode::Enter), env) == (EffectView::Rescan {
                path: a.root.path@,
            })
        }),
{
    let k = a.settings_cursor as int;
    let items = a.setting_items();
    let p = a.pattern_settings();
    assert(items[k] == p[i]);
    assert(p[i] == crate::tui::settings::pattern_line(a.config, i));
}

/// A click on a region does what the first region at that cell says, and notes the click.
pub proof fn clicks_do_what_regions_say(a: AppView, i: int, m: MouseEvent, now: u64)
    requires
        0 <= i < a.hits.len(),
        m.kind == MouseKind::LeftDown,
        point_in(a.hits[i].rect, m.column, m.row),
        forall|j: int| 0 <= j < i ==> !point_in(#[trigger] a.hits[j].rect, m.column, m.row),
    ensures
        ({
            let (b, e) = a.mouse_step(m, now);
            let c = a.config;
            let noted = AppView { last_click: Some((now, m.column, m.row)), ..a };
            match a.hits[i].action {
                Action::SetMode(mode) => e is Nothing && b == (AppView {
                    config: ConfigView { mode, ..c },
                    ..noted
                }),
                Action::OpenHelp => e is Nothing && b == (AppView {
                    screen: Screen::Help,
                    ..noted
                }),
                Action::OpenSettings => e is Nothing && b == (AppView {
                    screen: Screen::Settings,
                    settings_cursor: 0,
                    settings_scroll: 0,
                    ..noted
                }),
                Action::OpenWarnings => e is Nothing && b == (AppView {
                    screen: Screen::Warnings,
                    warnings_scroll: 0,
                    ..noted
                }),
                Action::CloseOverlay => {
                    &&& b == (AppView { screen: Screen::Main, ..noted })
                    &&& e is SaveSettings <==> a.screen == Screen::Settings
                    &&& e is Nothing <==> a.screen != Screen::Settings
                },
                Action::Quit => {
                    &&& b == (AppView { should_quit: true, ..noted })
                    &&& e is SaveSettings <==> a.screen == Screen::Settings
                    &&& e is Nothing <==> a.screen != Screen::Settings
                },
                Action::ClearFilter => {
                    &&& e is Nothing
                    &&& b == (AppView { filter: b.filter, ..noted })
                    &&& b.query() is None
                    &&& !b.filter.editing
                },
                Action::ToggleHidden => e is Nothing && b == (AppView {
                    config: ConfigView {
                        view: ViewOptions { show_hidden: !c.view.show_hidden, ..c.view },
                        ..c
                    },
                    ..noted
                }),
                Action::ToggleEmpty => e is Nothing && b == (AppView {
                    config: ConfigView {
                        view: ViewOptions { show_empty: !c.view.show_empty, ..c.view },
                        ..c
                    },
                    ..noted
                }),
                Action::TogglePercent => e is Nothing && b == (AppView {
                    config: ConfigView {
                        view: ViewOptions { show_percent: !c.view.show_percent, ..c.view },
                        ..c
                    },
                    ..noted
                }),
                Action::ToggleModified => e is Nothing && b == (AppView {
                    config: ConfigView {
                        view: ViewOptions { show_modified: !c.view.show_modified, ..c.view },
                        show_modified: !c.view.show_modified,
                        ..c
                    },
                    ..noted
                }),
                Action::Noop => e is Nothing && b == noted,
                _ => true,
            }
        }),
{
    first_region_is_clicked(a.hits, i, m.column, m.row);
    reveal(AppView::acted_front);
    reveal(AppView::acted_look);
}

/// A click on the name of the order does what the key for it does, and a click on a line
/// of the settings what entering that line does.
pub proof fn clicks_do_what_keys_do(a: AppView, i: int, m: MouseEvent, env: Env)
    requires
        0 <= i < a.hits.len(),
        m.kind == MouseKind::LeftDown,
        point_in(a.hits[i].rect, m.column, m.row),
        forall|j: int| 0 <= j < i ==> !point_in(#[trigger] a.hits[j].rect, m.column, m.row),
        nothing_open(a),
        !a.filter.editing,
    ensures
        ({
            let (b, e) = a.mouse_step(m, env.now);
            let noted = AppView { last_click: Some((env.now, m.column, m.row)), ..a };
            match a.hits[i].action {
                Action::CycleSort => a.screen == Screen::Main ==> (b, e) == noted.key_step(
                    typed('s'),
                    env,
                ),
                Action::SettingsRow(k) => a.screen == Screen::Settings ==> (b, e) == (AppView {
                    settings_cursor: k as nat,
                    ..noted
                }).key_step(pressed(KeyCode::Enter), env),
                _ => true,
            }
        }),
{
    first_region_is_clicked(a.hits, i, m.column, m.row);
    reveal(AppView::acted_look);
    reveal(AppView::acted_setting);
    reveal(AppView::main_step);
    reveal(AppView::look_step);
}

/// On the line of the depth, plus and minus change it; a greater depth has the directory
/// scanned again.
pub proof fn the_depth_line_changes_the_depth(a: AppView, env: Env)
    requires
        nothing_open(a),
        a.screen == Screen::Settings,
        a.settings_cursor == 0,
        a.config.depth < usize::MAX,
    ensures
        a.setting_items()[0].label == "Depth: "@ + decimal_text(a.config.depth as nat)
            + "  (+/- to change)"@,
        forall|c: char| c == '+' || c == '=' ==> #[trigger] a.key_step(typed(c), env) == (
            AppView {
                config: ConfigView { depth: (a.config.depth + 1) as usize, ..a.config },
                ..a
            },
            EffectView::Rescan { path: a.root.path@ },
        ),
        a.config.depth > 0 ==> a.key_step(typed('-'), env) == (
            AppView {
                config: ConfigView { depth: (a.config.depth - 1) as usize, ..a.config },
                ..a
            },
            EffectView::Nothing,
        ),
        a.config.depth == 0 ==> a.key_step(typed('-'), env) == (a, EffectView::Nothing),
{
    assert(a.setting_items()[0] == a.fixed_settings()[0]);
}

/// The line of the theme says which it is, and entering it goes on to the next; the line
/// of the filter takes it away; the last line sets everything back to what a first run
/// has, but for the patterns.
pub proof fn other_settings_do_what_they_say(a: AppView, env: Env)
    requires
        nothing_open(a),
        a.screen == Screen::Settings,
    ensures
        ({
            let (b, e) = a.key_step(pressed(KeyCode::Enter), env);
            let items = a.setting_items();
            let n = items.len();
            let c = a.config;
            let i = a.settings_cursor as int;
            &&& i == 6 ==> {
                &&& items[6].label == "Theme: "@ + (match c.theme {
                    Theme::Default => "Default"@,
                    Theme::HighContrast => "HighContrast"@,
                    Theme::Monochrome => "Monochrome"@,
                }) + "  (Enter to cycle)"@
                &&& e is Nothing
                &&& b == (AppView { config: ConfigView { theme: b.config.theme, ..c }, ..a })
                &&& b.config.theme != c.theme
            }
            &&& i == 7 && a.query() is Some ==> {
                &&& items[7].label == "Filter: \""@ + a.query()->0 + "\"   [clear]"@
                &&& e is Nothing
                &&& b == (AppView { filter: b.filter, ..a })
                &&& b.query() is None
            }
            &&& items[n - 1].label == "[Reset to defaults]"@
            &&& i == n - 1 ==> {
                &&& b.config.excludes == c.excludes
                &&& b.config.excludes_enabled == c.excludes_enabled
                &&& first_run(b.config)
            }
        }),
{
    let items = a.setting_items();
    let n = items.len();
    let f = a.fixed_settings();
    let g = a.filter_settings();
    assert(items[6] == f[6]);
    if a.query() is Some {
        assert(items[7] == g[0]);
    }
    assert(n >= 8);
}

/// Whether settings are those of a first run, but for the patterns.
pub open spec fn first_run(c: ConfigView) -> bool {
    &&& c.theme == Theme::Default
    &&& c.depth == 1
    &&& !c.show_files
    &&& !c.show_modified
    &&& c.sort == SortBy::Size
    &&& c.sort_order == SortOrder::Desc
    &&& c.mode == Mode::Tree
    &&& c.view.show_hidden
    &&& !c.view.show_empty
    &&& c.view.show_percent
    &&& c.view.show_modified
}

/// A first run has the usual settings, with all its patterns in force, among them the
/// virtual filesystems.
pub proof fn a_first_run_has_the_usual_settings()
    ensures
        first_run(default_config()),
        default_config().parallel(),
        forall|i: int|
            0 <= i < default_config().excludes_enabled.len()
                ==> #[trigger] default_config().excludes_enabled[i],
        default_config().excludes == seq![
            "target"@,
            ".git"@,
            "node_modules"@,
            ".DS_Store"@,
            "/proc"@,
            "/sys"@,
            "/dev"@,
            "/run"@,
            "/tmp"@,
        ],
{
    assert(default_config().excludes =~= seq![
        "target"@,
        ".git"@,
        "node_modules"@,
        ".DS_Store"@,
        "/proc"@,
        "/sys"@,
        "/dev"@,
        "/run"@,
        "/tmp"@,
    ]);
}

/// Clicks on the lines that set back and that clear the filter do what entering them does.
pub proof fn clicks_reset_and_clear(a: AppView, i: int, m: MouseEvent, now: u64)
    requires
        0 <= i < a.hits.len(),
        m.kind == MouseKind::LeftDown,
        point_in(a.hits[i].rect, m.column, m.row),
        forall|j: int| 0 <= j < i ==> !point_in(#[trigger] a.hits[j].rect, m.column, m.row),
    ensures
        ({
            let (b, e) = a.mouse_step(m, now);
            &&& a.hits[i].action == Action::SettingsResetDefaults ==> first_run(b.config)
                && b.config.excludes == a.config.excludes
            &&& a.hits[i].action == Action::SettingsClearFilter ==> e is Nothing && b.query() is None
                && b.config == a.config
            &&& a.hits[i].action matches Action::SelectRow(k) ==> b.cursor == k
            &&& a.hits[i].action matches Action::DrillRow(k) ==> b.cursor == k
        }),
{
    first_region_is_clicked(a.hits, i, m.column, m.row);
    reveal(AppView::acted_setting);
}

/// Three keys take the warnings away, and do nothing else.
pub proof fn keys_close_warnings(a: AppView, code: KeyCode, env: Env)
    requires
        nothing_open(a),
        a.screen == Screen::Warnings,
        code == KeyCode::Esc || code == KeyCode::Char('q') || code == KeyCode::Char('w'),
    ensures
        a.key_step(pressed(code), env) == (
            AppView { screen: Screen::Main, ..a },
            EffectView::Nothing,
        ),
{
}

/// Two keys open the picker, at the directory that is shown, and have it read.
pub proof fn keys_open_the_picker(a: AppView, key: KeyEvent, env: Env)
    requires
        rows_take_keys(a),
        key.press,
        key.code == KeyCode::Char(' ') || (key.code == KeyCode::Char('p') && key.ctrl),
        a.root.path@.len() > 0,
        a.root.path@.last() != '/',
        forall|i: int|
            0 <= i < a.root.path@.len() - 1 ==> !(#[trigger] a.root.path@[i] == '/'
                && a.root.path@[i + 1] == '/'),
    ensures
        ({
            let (b, e) = a.key_step(key, env);
            &&& b == (AppView { spotlight: b.spotlight, ..a })
            &&& b.spotlight is Some
            &&& b.spotlight->0.input == a.root.path@ + seq!['/']
            &&& b.spotlight->0.candidates.len() == 0
            &&& e is Query
            &&& (e->Query_0.parent, e->Query_0.partial) == split_typed(
                a.root.path@ + seq!['/'],
                env.home_text(),
            )
            &&& e->Query_0.generation == b.spotlight->0.generation
        }),
{
    reveal(AppView::main_step);
    reveal(AppView::travel_step);
    let p = a.root.path@;
    let s = p.push('/');
    assert(s =~= p + seq!['/']);
    assert forall|i: int| 0 <= i < s.len() - 1 implies !(#[trigger] s[i] == '/' && s[i + 1]
        == '/') by {
        assert(s[i] == p[i]);
        if i + 1 < p.len() {
            assert(s[i + 1] == p[i + 1]);
        }
    }
    lemma_single(s);
}

proof fn lemma_single(s: Seq<char>)
    requires
        forall|i: int| 0 <= i < s.len() - 1 ==> !(#[trigger] s[i] == '/' && s[i + 1] == '/'),
    ensures
        single_slashes(s) == s,
    decreases s.len(),
{
    if s.len() > 0 {
        let t = s.skip(1);
        assert forall|i: int| 0 <= i < t.len() - 1 implies !(#[trigger] t[i] == '/' && t[i + 1]
            == '/') by {
            assert(t[i] == s[i + 1] && t[i + 1] == s[i + 2]);
        }
        lemma_single(t);
        assert(seq![s[0]] + t =~= s);
        if s.len() > 1 {
            assert(!(s[0] == '/' && s[1] == '/'));
        }
    }
}

/// While the editor is open, keys go to it; it closes where its answer to a key says so,
/// and asks for a file to be saved where it says that.
pub proof fn keys_go_to_the_editor(a: AppView, key: KeyEvent, env: Env)
    requires
        key.press,
        a.editor is Some,
    ensures
        ({
            let (b, e) = a.key_step(key, env);
            let (t, action) = (EditorView { size: a.last_size, ..a.editor->0 }).key_step(
                key,
                env.now,
            );
            match action {
                EditorAction::Done(EditorOutcome::Continue) => e is Nothing && b == (AppView {
                    editor: Some(t),
                    ..a
                }),
                EditorAction::Done(EditorOutcome::Close) => e is Nothing && b.editor is None
                    && b.screen == Screen::Main && b.root == a.root && b.config == a.config,
                EditorAction::Save { close } => e == (EffectView::SaveFile { close }) && b == (
                AppView { editor: Some(t), ..a }),
            }
        }),
{
    reveal(AppView::editor_step);
}

/// A key that is let go does nothing, whatever is in front.
pub proof fn released_keys_do_nothing(a: AppView, key: KeyEvent, env: Env)
    requires
        !key.press,
    ensures
        a.key_step(key, env) == (a, EffectView::Nothing),
{
}

} // verus!
