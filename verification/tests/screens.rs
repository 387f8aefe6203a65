use diskvis::cli::{Mode, SortBy, SortOrder};
use diskvis::config::{Config, Theme};
use diskvis::editor::file::{FileRead, SaveOutcome};
use diskvis::keys::{KeyCode, KeyEvent, MouseEvent, MouseKind};
use diskvis::layout::Rect;
use diskvis::paths::name_of;
use diskvis::tui::mouse::{point_in, DOUBLE_CLICK_NS};
use diskvis::tui::navigate::EditorLoad;
use diskvis::tui::overlays::ApplyOutcome;
use diskvis::tui::perms::{is_root, mode_string, PermsStat, PermsState};
use diskvis::tui::rows::{
    last_selectable_idx, selectable_len, snap_cursor_to_selectable, step_backward, step_forward,
};
use diskvis::tui::scans::{RescanOutcome, FRESH_NS, KEEP_NS, KEEP_TREES};
use diskvis::tui::settings::SettingKind;
use diskvis::tui::spotlight::{SpotlightEntry, SpotlightResp};
use diskvis::tui::{Action, App, Effect, Env, HitRegion, Screen};
use diskvis::walker::{Node, ScanResult};

fn file(path: &str, size: u64) -> Node {
    Node {
        path: path.to_string(),
        name: name_of(path),
        size,
        is_dir: false,
        modified: None,
        mode: Some(0o644),
        children: Vec::new(),
    }
}

fn dir(path: &str, children: Vec<Node>) -> Node {
    Node {
        path: path.to_string(),
        name: name_of(path),
        size: children.iter().map(|c| c.size).sum(),
        is_dir: true,
        modified: None,
        mode: Some(0o755),
        children,
    }
}

fn sample() -> Node {
    dir(
        "/r",
        vec![
            dir("/r/a", vec![file("/r/a/x", 100)]),
            dir("/r/b", vec![file("/r/b/y", 50)]),
            file("/r/.hid", 25),
            file("/r/c.txt", 10),
        ],
    )
}

fn app() -> App {
    let mut c = Config::default();
    c.depth = 1;
    c.show_files = true;
    let warnings = vec!["/r/q: denied".to_string(), "/r/z: gone".to_string()];
    App::new(sample(), "/r".to_string(), c, 0, warnings)
}

fn env(now: u64) -> Env {
    Env { now, home: Some("/home/u".to_string()), root: false }
}

fn key(code: KeyCode) -> KeyEvent {
    KeyEvent { code, ctrl: false, shift: false, press: true }
}

fn ch(c: char) -> KeyEvent {
    key(KeyCode::Char(c))
}

fn ctrl(c: char) -> KeyEvent {
    KeyEvent { code: KeyCode::Char(c), ctrl: true, shift: false, press: true }
}

fn hit(a: &mut App, k: KeyEvent) -> Effect {
    assert!(a.accepts_key(k));
    a.handle_key_event(k, &env(1000))
}

fn message(a: &App) -> String {
    match &a.status_msg {
        Some((m, _)) => m.clone(),
        None => String::new(),
    }
}

fn mouse(kind: MouseKind, column: u16, row: u16) -> MouseEvent {
    MouseEvent { kind, column, row }
}

#[test]
fn rows_are_those_of_the_mode() {
    let mut a = app();
    let names: Vec<String> = a.build_rows().into_iter().map(|r| r.name).collect();
    assert_eq!(names, vec!["r", "a", "b", ".hid", "c.txt"]);
    hit(&mut a, ch('h'));
    assert_eq!(message(&a), "hidden files: OFF");
    let rows = a.build_rows();
    assert_eq!(rows.len(), 5);
    assert!(rows[4].is_hidden_summary);
    hit(&mut a, ch('.'));
    assert_eq!(message(&a), "hidden files: ON");
    for (k, m) in [('1', Mode::Tree), ('2', Mode::Bars), ('3', Mode::Treemap), ('4', Mode::Flat)] {
        hit(&mut a, ch(k));
        assert_eq!(a.config.mode, m);
    }
}

#[test]
fn cursor_moves_among_rows() {
    let mut a = app();
    hit(&mut a, ch('j'));
    hit(&mut a, key(KeyCode::Down));
    assert_eq!(a.cursor, 2);
    hit(&mut a, ch('k'));
    assert_eq!(a.cursor, 1);
    hit(&mut a, ch('G'));
    assert_eq!(a.cursor, 4);
    hit(&mut a, ch('j'));
    assert_eq!(a.cursor, 4);
    hit(&mut a, ch('g'));
    assert_eq!(a.cursor, 0);
    hit(&mut a, key(KeyCode::Up));
    assert_eq!(a.cursor, 0);
    a.body_visible_rows = 6;
    hit(&mut a, key(KeyCode::PageDown));
    assert_eq!(a.cursor, 3);
    hit(&mut a, key(KeyCode::PageUp));
    assert_eq!(a.cursor, 0);
    hit(&mut a, key(KeyCode::End));
    assert_eq!(a.cursor, 4);
    hit(&mut a, key(KeyCode::Home));
    assert_eq!(a.cursor, 0);
}

#[test]
fn summary_row_is_skipped() {
    let mut a = app();
    a.config.mode = Mode::Bars;
    a.config.view.show_hidden = false;
    let rows = a.build_rows();
    // The root, a, b, the hidden items and c.txt.
    assert!(rows[3].is_hidden_summary);
    assert_eq!(selectable_len(&rows), 4);
    assert_eq!(step_forward(&rows, 2, 1), 4);
    assert_eq!(step_backward(&rows, 4, 1), 2);
    assert_eq!(step_backward(&rows, 4, 9), 0);
    assert_eq!(snap_cursor_to_selectable(&rows, 3), 4);
    assert_eq!(snap_cursor_to_selectable(&rows, 99), 4);
    assert_eq!(last_selectable_idx(&rows), 4);
    a.cursor = 3;
    assert!(a.selected_row_path().is_none());
    assert!(matches!(hit(&mut a, ch('y')), Effect::Nothing));
    assert_eq!(message(&a), "nothing selected");
}

#[test]
fn no_rows_at_all() {
    let rows = Vec::new();
    assert_eq!(snap_cursor_to_selectable(&rows, 5), 0);
    assert_eq!(last_selectable_idx(&rows), 0);
    assert_eq!(step_forward(&rows, 0, 3), 0);
}

#[test]
fn going_in_and_up() {
    let mut a = app();
    assert!(matches!(hit(&mut a, key(KeyCode::Enter)), Effect::Nothing));
    hit(&mut a, ch('j'));
    match hit(&mut a, key(KeyCode::Enter)) {
        Effect::Rescan { path } => assert_eq!(path, "/r/a"),
        _ => panic!(),
    }
    assert_eq!(a.nav_stack, vec!["/r"]);
    let opts = a.begin_rescan("/r/a", 4).unwrap();
    assert_eq!((a.root.path.as_str(), a.root.children.len()), ("/r/a", 0));
    assert!(a.rescanning && opts.max_depth.is_none());
    assert_eq!(message(&a), "scan: /r/a (render depth 1)");
    assert_eq!(a.poll_millis(), 80);
    assert_eq!(opts.excludes.len(), 9);
    let scan = ScanResult { root: dir("/r/a", Vec::new()), warnings: Vec::new(), walked_dirs: 1 };
    a.finish_rescan("/r/a", RescanOutcome::Scanned(scan), 5);
    assert_eq!(message(&a), "scan: /r/a (render depth 1)");
    assert!(!a.rescanning && a.warnings.is_empty());
    assert_eq!((a.root.path.as_str(), a.cursor, a.scroll), ("/r/a", 0, 0));
    match hit(&mut a, ch('u')) {
        Effect::GoUp { target, pop } => {
            assert_eq!((target.as_str(), pop), ("/r", true));
            match a.go_up_checked(target, pop, true, 6) {
                Effect::Rescan { path, .. } => assert_eq!(path, "/r"),
                _ => panic!(),
            }
        },
        _ => panic!(),
    }
    assert!(a.nav_stack.is_empty());
    match hit(&mut a, key(KeyCode::Backspace)) {
        Effect::GoUp { target, pop } => assert_eq!((target.as_str(), pop), ("/r", false)),
        _ => panic!(),
    }
}

fn scanned(root: Node) -> RescanOutcome {
    RescanOutcome::Scanned(ScanResult { root, warnings: Vec::new(), walked_dirs: 1 })
}

#[test]
fn a_rescan_keeps_the_cursor() {
    let mut a = app();
    a.cursor = 3;
    a.scroll = 1;
    let full = a.build_rows().len();
    assert!(a.begin_rescan("/r/", 4).is_some());
    assert_eq!((a.root.children.len(), a.cursor, a.warnings.len()), (4, 3, 2));
    a.finish_rescan("/r/", scanned(sample()), 5);
    assert_eq!((a.cursor, a.scroll, a.build_rows().len()), (3, 1, full));
    a.finish_rescan("/r", scanned(dir("/r", Vec::new())), 5);
    assert_eq!(a.cursor, last_selectable_idx(&a.build_rows()));
}

#[test]
fn a_scan_runs_once() {
    let mut a = app();
    assert!(a.begin_rescan("/r", 1).is_some());
    a.status_msg = None;
    assert!(a.begin_rescan("/r", 2).is_none());
    assert_eq!(message(&a), "");
    assert!(a.rescanning);
    a.finish_rescan("/r", scanned(sample()), 3);
    assert!(!a.rescanning && a.scan_target.is_none());
    assert!(a.begin_rescan("/r", 4).is_some());
}

#[test]
fn a_superseded_scan_is_kept() {
    let mut a = app();
    a.begin_rescan("/r/a", 1);
    a.begin_rescan("/r/b", 2);
    assert_eq!(a.root.path, "/r/b");
    a.finish_rescan("/r/a", scanned(dir("/r/a", vec![file("/r/a/x", 100)])), 3);
    assert!(a.rescanning);
    assert_eq!((a.root.path.as_str(), a.root.size), ("/r/b", 0));
    assert_eq!(a.scan_cache.len(), 1);
    a.finish_rescan("/r/b", scanned(dir("/r/b", vec![file("/r/b/y", 50)])), 4);
    assert!(!a.rescanning);
    assert_eq!(a.root.size, 50);
    assert!(a.begin_rescan("/r/a", 3 + FRESH_NS - 1).is_some());
    assert_eq!((a.root.path.as_str(), a.root.size), ("/r/a", 100));
    assert_eq!(a.scan_cache.len(), 1);
    assert_eq!(a.scan_cache[0].root.path, "/r/b");
}

#[test]
fn trees_are_shown_again_while_fresh() {
    let mut a = app();
    a.finish_rescan("/r", scanned(sample()), 10);
    a.cursor = 2;
    a.begin_rescan("/r/b", 11);
    assert_eq!((a.root.path.as_str(), a.cursor, a.root.size), ("/r/b", 0, 0));
    a.begin_rescan("/r", 12);
    assert_eq!((a.root.path.as_str(), a.root.size), ("/r", 185));
    a.begin_rescan("/r/b", 13);
    a.begin_rescan("/r", 10 + FRESH_NS);
    assert_eq!((a.root.path.as_str(), a.root.size), ("/r", 0));
    a.finish_rescan("/r", scanned(sample()), 20);
    assert_eq!(a.root.size, 185);
    assert!(matches!(hit(&mut a, ch('r')), Effect::Rescan { .. }));
    assert_eq!(a.root.size, 185);
    a.begin_rescan("/r/b", 21);
    a.begin_rescan("/r", 22);
    assert_eq!(a.root.size, 0);
}

#[test]
fn kept_trees_make_room() {
    let mut a = app();
    let start = KEEP_NS;
    for i in 0..60u64 {
        let path = format!("/t{}", i);
        a.finish_rescan(&path, scanned(dir(&path, Vec::new())), start + i);
    }
    assert_eq!(a.scan_cache.len(), KEEP_TREES);
    assert_eq!(a.scan_cache[0].root.path, "/t10");
    a.finish_rescan("/t59", scanned(dir("/t59", Vec::new())), start + 60);
    assert_eq!(a.scan_cache.len(), KEEP_TREES);
    a.finish_rescan("/new", scanned(dir("/new", Vec::new())), start + 57 + KEEP_NS);
    let left: Vec<String> = a.scan_cache.iter().map(|e| e.root.path.clone()).collect();
    assert_eq!(left, vec!["/t57", "/t58", "/t59", "/new"]);
}

#[test]
fn up_is_the_parent() {
    let mut a = app();
    a.root = dir("/r/a/b", Vec::new());
    a.nav_stack = vec!["/r/a".to_string(), "/etc".to_string()];
    match hit(&mut a, ch('u')) {
        Effect::GoUp { target, pop } => assert_eq!((target.as_str(), pop), ("/r/a", false)),
        _ => panic!(),
    }
    a.nav_stack = vec!["/etc".to_string(), "/r/a/".to_string()];
    match hit(&mut a, ch('u')) {
        Effect::GoUp { target, pop } => {
            assert_eq!((target.as_str(), pop), ("/r/a", true));
            assert!(matches!(a.go_up_checked(target, pop, true, 1), Effect::Rescan { .. }));
        },
        _ => panic!(),
    }
    assert_eq!(a.nav_stack, vec!["/etc"]);
}

#[test]
fn going_up_can_fail() {
    let mut a = app();
    a.nav_stack.push("/gone".to_string());
    assert!(matches!(a.go_up_checked("/gone".to_string(), true, false, 7), Effect::Nothing));
    assert_eq!(message(&a), "cannot go up: /gone is not accessible");
    assert!(a.nav_stack.is_empty());
    a.root = dir("/", Vec::new());
    assert!(matches!(hit(&mut a, ch('u')), Effect::Nothing));
    assert_eq!(message(&a), "already at filesystem root");
}

#[test]
fn scans_can_fail() {
    let mut a = app();
    a.finish_rescan("/x", RescanOutcome::Missing, 1);
    assert_eq!(message(&a), "path no longer exists: /x");
    a.finish_rescan("/x", RescanOutcome::NotDir, 1);
    assert_eq!(message(&a), "not a directory: /x");
    assert_eq!(a.root.path, "/r");
    a.begin_rescan("/r", 1);
    a.finish_rescan("/x", RescanOutcome::Failed("late".to_string()), 1);
    assert!(a.rescanning);
    a.finish_rescan("/r", RescanOutcome::Failed("oops".to_string()), 1);
    assert_eq!(message(&a), "scan error: oops");
    assert!(!a.rescanning);
    assert_eq!(a.root.path, "/r");
    assert!(matches!(hit(&mut a, ch('r')), Effect::Rescan { path } if path == "/r"));
}

#[test]
fn going_home() {
    let mut a = app();
    match hit(&mut a, ch('~')) {
        Effect::Rescan { path, .. } => assert_eq!(path, "/home/u"),
        _ => panic!(),
    }
    assert_eq!(a.nav_stack, vec!["/r"]);
    assert!(matches!(a.jump_home(None), Effect::Nothing));
}

#[test]
fn entries_are_excluded_for_the_session() {
    let mut a = app();
    hit(&mut a, ch('j'));
    assert!(matches!(hit(&mut a, ch('x')), Effect::Rescan { .. }));
    assert_eq!(a.session_excludes, vec!["a"]);
    assert_eq!(message(&a), "excluded \"a\" (session)");
    hit(&mut a, ch('x'));
    assert_eq!(a.session_excludes.len(), 1);
    let opts = a.begin_rescan("/r", 1).unwrap();
    assert_eq!(opts.excludes.last().unwrap(), "a");
    a.config.excludes_enabled[0] = false;
    a.finish_rescan("/r", scanned(sample()), 2);
    let opts = a.begin_rescan("/r", 3).unwrap();
    assert!(!opts.excludes.contains(&"target".to_string()));
}

#[test]
fn entries_are_handed_out() {
    let mut a = app();
    hit(&mut a, ch('G'));
    assert!(matches!(hit(&mut a, ch('y')), Effect::Yank { text } if text == "/r/c.txt"));
    a.yank_done(Ok(()), 1);
    assert_eq!(message(&a), "yanked path to clipboard");
    a.yank_done(Err("no display".to_string()), 1);
    assert_eq!(message(&a), "clipboard error: no display");
    assert!(matches!(hit(&mut a, ch('o')), Effect::OpenExternal { path } if path == "/r/c.txt"));
    a.open_done("xdg-open", true, 1);
    assert_eq!(message(&a), "opened with xdg-open");
    a.open_done("xdg-open", false, 1);
    assert_eq!(message(&a), "failed to launch xdg-open");
}

#[test]
fn themes_and_orders_cycle() {
    let mut a = app();
    assert_eq!(a.sort_label(), "size ↓");
    let mut labels = Vec::new();
    for _ in 0..4 {
        hit(&mut a, ch('s'));
        labels.push(a.sort_label());
    }
    assert_eq!(labels, vec!["size ↑", "name ↑", "name ↓", "size ↓"]);
    assert_eq!((a.config.sort, a.config.sort_order), (SortBy::Size, SortOrder::Desc));
    hit(&mut a, ch('c'));
    assert_eq!((a.config.theme, message(&a).as_str()), (Theme::HighContrast, "theme: HighContrast"));
    hit(&mut a, ch('c'));
    hit(&mut a, ch('c'));
    assert_eq!((a.config.theme, message(&a).as_str()), (Theme::Default, "theme: Default"));
}

#[test]
fn view_options_are_switched() {
    let mut a = app();
    hit(&mut a, ch('d'));
    assert_eq!((a.config.view.show_empty, message(&a).as_str()), (true, "empty dirs: ON"));
    hit(&mut a, ch('p'));
    assert_eq!((a.config.view.show_percent, message(&a).as_str()), (false, "percent column: OFF"));
    hit(&mut a, ch('m'));
    assert!(!a.config.view.show_modified && !a.config.show_modified);
    assert_eq!(message(&a), "modified column: OFF");
    hit(&mut a, ch('m'));
    assert!(a.config.view.show_modified && a.config.show_modified);
    hit(&mut a, ch('f'));
    assert!(!a.config.show_files);
}

#[test]
fn empty_directories_are_left_out() {
    let mut a = app();
    a.root.children.push(dir("/r/e", Vec::new()));
    assert_eq!(a.build_rows().len(), 5);
    a.config.view.show_empty = true;
    assert_eq!(a.build_rows().len(), 6);
}

#[test]
fn filter_ignores_case() {
    let mut a = app();
    hit(&mut a, ch('/'));
    assert!(a.filter.editing && a.filter.active);
    for c in "C.TX".chars() {
        hit(&mut a, ch(c));
    }
    let names: Vec<String> = a.build_rows().into_iter().map(|r| r.name).collect();
    assert_eq!(names, vec!["r", "c.txt"]);
    hit(&mut a, key(KeyCode::Backspace));
    assert_eq!(a.filter.query, "C.T");
    hit(&mut a, key(KeyCode::Enter));
    assert!(!a.filter.editing && a.filter.active);
    hit(&mut a, key(KeyCode::Esc));
    assert!(!a.filter.active && a.filter.query.is_empty());
    assert_eq!(message(&a), "filter cleared");
    hit(&mut a, ch('/'));
    hit(&mut a, key(KeyCode::Enter));
    assert!(!a.filter.active);
    hit(&mut a, ch('/'));
    hit(&mut a, ch('q'));
    hit(&mut a, key(KeyCode::Esc));
    assert!(!a.filter.editing && a.filter.query.is_empty());
}

#[test]
fn help_and_quitting() {
    let mut a = app();
    hit(&mut a, ch('?'));
    assert_eq!(a.screen, Screen::Help);
    assert!(matches!(hit(&mut a, ch('q')), Effect::Nothing));
    assert_eq!(a.screen, Screen::Main);
    assert!(matches!(hit(&mut a, ch('q')), Effect::Quit));
    assert!(matches!(hit(&mut a, ctrl('c')), Effect::Quit));
    let released = KeyEvent { code: KeyCode::Char('q'), ctrl: false, shift: false, press: false };
    assert!(matches!(hit(&mut a, released), Effect::Nothing));
}

#[test]
fn warnings_scroll() {
    let mut a = app();
    hit(&mut a, ch('w'));
    assert_eq!((a.screen, a.warnings_scroll), (Screen::Warnings, 0));
    hit(&mut a, ch('j'));
    hit(&mut a, key(KeyCode::Down));
    assert_eq!(a.warnings_scroll, 1);
    hit(&mut a, key(KeyCode::PageUp));
    assert_eq!(a.warnings_scroll, 0);
    hit(&mut a, key(KeyCode::PageDown));
    assert_eq!(a.warnings_scroll, 1);
    hit(&mut a, ch('k'));
    assert_eq!(a.warnings_scroll, 0);
    hit(&mut a, ch('w'));
    assert_eq!(a.screen, Screen::Main);
}

#[test]
fn settings_are_listed() {
    let mut a = app();
    a.config.excludes = vec!["x".to_string(), "y".to_string()];
    a.config.excludes_enabled = vec![false];
    a.filter.active = true;
    a.filter.query = "q".to_string();
    let labels: Vec<String> = a.settings_items().into_iter().map(|i| i.label).collect();
    assert_eq!(
        labels,
        vec![
            "Depth: 1  (+/- to change)",
            "Show modified date: ON",
            "Show hidden files: ON",
            "Show empty dirs: OFF",
            "Show percentage column: ON",
            "Show files: ON",
            "Theme: Default  (Enter to cycle)",
            "Filter: \"q\"   [clear]",
            "Exclude  [ ]  x",
            "Exclude  [x]  y",
            "[Reset to defaults]",
        ]
    );
}

#[test]
fn settings_are_changed() {
    let mut a = app();
    hit(&mut a, ch('S'));
    assert_eq!(a.screen, Screen::Settings);
    assert!(matches!(hit(&mut a, ch('+')), Effect::Rescan { .. }));
    assert_eq!(a.config.depth, 2);
    hit(&mut a, ch('-'));
    hit(&mut a, ch('-'));
    hit(&mut a, ch('-'));
    assert_eq!(a.config.depth, 0);
    hit(&mut a, ch('j'));
    hit(&mut a, key(KeyCode::Enter));
    assert!(!a.config.view.show_modified);
    assert!(matches!(hit(&mut a, ch('+')), Effect::Nothing));
    hit(&mut a, key(KeyCode::PageDown));
    assert_eq!(a.settings_cursor, 11);
    hit(&mut a, key(KeyCode::PageDown));
    assert_eq!(a.settings_cursor, 16);
    a.config.mode = Mode::Flat;
    a.config.excludes_enabled[0] = false;
    hit(&mut a, ch(' '));
    assert_eq!(message(&a), "Settings reset to defaults");
    assert_eq!((a.config.depth, a.config.mode), (1, Mode::Tree));
    assert!(!a.config.excludes_enabled[0]);
    hit(&mut a, key(KeyCode::PageUp));
    assert_eq!(a.settings_cursor, 6);
    assert!(matches!(hit(&mut a, key(KeyCode::Esc)), Effect::SaveSettings));
    assert_eq!(a.screen, Screen::Main);
    a.settings_saved(Ok(()), 1);
    assert_eq!(message(&a), "Settings saved to ~/.config/diskvis/config.toml");
    a.settings_saved(Err("read-only".to_string()), 1);
    assert_eq!(message(&a), "Failed to save settings: read-only");
}

#[test]
fn patterns_are_switched() {
    let mut a = app();
    assert!(matches!(
        a.activate_setting(SettingKind::ExcludeToggle(1), 1),
        Effect::Rescan { .. }
    ));
    assert!(!a.config.excludes_enabled[1]);
    a.activate_setting(SettingKind::ExcludeToggle(1), 1);
    assert!(a.config.excludes_enabled[1]);
    a.activate_setting(SettingKind::ExcludeToggle(99), 1);
    assert_eq!(a.config.excludes_enabled.len(), 9);
}

#[test]
fn depth_is_changed_on_the_main_screen() {
    let mut a = app();
    assert!(matches!(hit(&mut a, ch('+')), Effect::Nothing));
    assert_eq!(a.config.depth, 2);
    hit(&mut a, ch('-'));
    hit(&mut a, ch('-'));
    assert_eq!(a.config.depth, 0);
    assert!(matches!(hit(&mut a, ch('-')), Effect::Nothing));
    assert_eq!(a.config.depth, 0);
    a.config.depth = usize::MAX;
    hit(&mut a, ch('+'));
    assert_eq!(a.config.depth, usize::MAX);
    assert!(matches!(a.apply_action(Action::Noop, true, 1), Effect::Nothing));
    assert_eq!(a.config.depth, usize::MAX);
}

#[test]
fn the_largest_depth_is_not_passed() {
    let mut a = app();
    a.screen = Screen::Settings;
    a.config.depth = usize::MAX;
    assert!(!a.accepts_key(ch('+')));
    assert!(a.accepts_key(ch('-')));
}

fn listing(names: &[(&str, bool)]) -> Vec<SpotlightEntry> {
    names
        .iter()
        .map(|(n, d)| SpotlightEntry {
            path: format!("/etc/{}", n),
            name: n.to_string(),
            is_dir: *d,
            size_hint: None,
        })
        .collect()
}

fn input(a: &App) -> String {
    a.spotlight.as_ref().unwrap().input.clone()
}

#[test]
fn picker_opens_at_the_directory() {
    let mut a = app();
    assert_eq!(a.poll_millis(), 200);
    match hit(&mut a, ch(' ')) {
        Effect::Query(q) => {
            assert_eq!((q.parent.as_str(), q.partial.as_str(), q.generation), ("/r", "", 1))
        },
        _ => panic!(),
    }
    assert_eq!(input(&a), "/r/");
    assert_eq!(a.poll_millis(), 30);
    hit(&mut a, key(KeyCode::Esc));
    assert!(a.spotlight.is_none());
    a.root = dir("/", Vec::new());
    assert!(matches!(hit(&mut a, ctrl('p')), Effect::Query(_)));
    assert_eq!(input(&a), "/");
}

#[test]
fn picker_takes_the_last_answer() {
    let mut a = app();
    hit(&mut a, ch(' '));
    hit(&mut a, ctrl('u'));
    for c in "/etc/p".chars() {
        hit(&mut a, ch(c));
    }
    let generation = a.spotlight.as_ref().unwrap().current_generation;
    let entries = listing(&[("pam.d", true), ("passwd", false), ("profile", false)]);
    let stale = SpotlightResp {
        generation: generation - 1,
        parent: "/etc".to_string(),
        entries: listing(&[("old", false)]),
    };
    a.take_listing(stale, &env(1000));
    assert!(a.spotlight.as_ref().unwrap().candidates.is_empty());
    a.take_listing(SpotlightResp { generation, parent: "/etc".to_string(), entries }, &env(1000));
    let names: Vec<String> =
        a.spotlight.as_ref().unwrap().candidates.iter().map(|e| e.name.clone()).collect();
    assert_eq!(names, vec!["pam.d", "passwd", "profile"]);
    hit(&mut a, key(KeyCode::Down));
    hit(&mut a, key(KeyCode::Down));
    hit(&mut a, key(KeyCode::Down));
    hit(&mut a, key(KeyCode::Up));
    assert_eq!(a.spotlight.as_ref().unwrap().selected, 1);
    match hit(&mut a, key(KeyCode::Enter)) {
        Effect::Rescan { path, .. } => assert_eq!(path, "/etc/passwd"),
        _ => panic!(),
    }
    assert!(a.spotlight.is_none());
    assert_eq!(a.nav_stack, vec!["/r"]);
}

#[test]
fn picker_completes() {
    let mut a = app();
    hit(&mut a, ch(' '));
    hit(&mut a, ctrl('u'));
    for c in "/etc/".chars() {
        hit(&mut a, ch(c));
    }
    let answer = |a: &mut App, names: &[(&str, bool)]| {
        let generation = a.spotlight.as_ref().unwrap().current_generation;
        let resp =
            SpotlightResp { generation, parent: "/etc".to_string(), entries: listing(names) };
        a.take_listing(resp, &env(1000));
    };
    answer(&mut a, &[("conf.a", false), ("conf.b", true)]);
    hit(&mut a, key(KeyCode::Tab));
    assert_eq!(input(&a), "/etc/conf.");
    answer(&mut a, &[("conf.b", true)]);
    hit(&mut a, key(KeyCode::Right));
    assert_eq!(input(&a), "/etc/conf.b/");
    hit(&mut a, ctrl('w'));
    assert_eq!(input(&a), "/etc/");
    answer(&mut a, &[("x", false), ("y", true)]);
    hit(&mut a, key(KeyCode::Down));
    hit(&mut a, key(KeyCode::Tab));
    assert_eq!(input(&a), "/etc/y/");
    hit(&mut a, key(KeyCode::Backspace));
    assert_eq!(input(&a), "/etc/y");
    hit(&mut a, ctrl('w'));
    hit(&mut a, ctrl('w'));
    hit(&mut a, ctrl('w'));
    assert_eq!(input(&a), "/");
}

#[test]
fn picker_waits_for_typing_to_rest() {
    let mut a = app();
    hit(&mut a, ch(' '));
    assert!(matches!(hit(&mut a, ch('a')), Effect::Nothing));
    assert!(matches!(a.tick(&env(1000 + 49_999_999)), Effect::Nothing));
    match a.tick(&env(1000 + 50_000_000)) {
        Effect::Query(q) => assert_eq!(q.partial, "a"),
        _ => panic!(),
    }
    assert!(matches!(a.tick(&env(1000 + 90_000_000)), Effect::Nothing));
    assert!(matches!(hit(&mut a, ch('/')), Effect::Query(_)));
}

#[test]
fn picker_goes_to_typed_paths() {
    let mut a = app();
    hit(&mut a, ch(' '));
    hit(&mut a, ctrl('u'));
    for c in "~/src".chars() {
        hit(&mut a, ch(c));
    }
    match hit(&mut a, key(KeyCode::Enter)) {
        Effect::GoToTyped { path } => {
            assert_eq!(path, "/home/u/src");
            assert!(matches!(a.typed_path_checked(path, false, 1), Effect::Nothing));
        },
        _ => panic!(),
    }
    assert_eq!(message(&a), "spotlight: no valid path");
    assert!(a.spotlight.is_some());
    assert!(matches!(
        a.typed_path_checked("/home/u/src".to_string(), true, 1),
        Effect::Rescan { .. }
    ));
    assert!(a.spotlight.is_none());
}

fn stat(mode: u32) -> PermsStat {
    PermsStat { is_dir: false, uid: 0, gid: 7, owner: Some("root".to_string()), group: None, mode }
}

#[test]
fn permissions_are_inspected() {
    let mut a = app();
    hit(&mut a, ch('G'));
    assert!(matches!(hit(&mut a, ch('i')), Effect::OpenPerms { path } if path == "/r/c.txt"));
    a.perms_loaded("/r/c.txt".to_string(), Err("denied".to_string()), 1);
    assert_eq!(message(&a), "perms: stat /r/c.txt: denied");
    assert!(a.perms.is_none());
    a.perms_loaded("/r/c.txt".to_string(), Ok(stat(0o100644)), 1);
    assert_eq!(a.screen, Screen::Permissions);
    let p = a.perms.as_ref().unwrap();
    assert_eq!((p.mode, p.cursor, p.owner_name.as_str(), p.group_name.as_str()), (0o644, 12, "root", "7"));
    hit(&mut a, key(KeyCode::Up));
    hit(&mut a, key(KeyCode::Up));
    hit(&mut a, key(KeyCode::Right));
    assert_eq!(a.perms.as_ref().unwrap().cursor, 7);
    hit(&mut a, ch(' '));
    assert_eq!(a.perms.as_ref().unwrap().mode, 0o646);
    hit(&mut a, key(KeyCode::Enter));
    assert_eq!(a.perms.as_ref().unwrap().mode, 0o644);
    hit(&mut a, ch('i'));
    assert!(a.perms.is_none());
    assert_eq!(a.screen, Screen::Main);
}

#[test]
fn permissions_need_root() {
    let mut a = app();
    a.perms_loaded("/r/c.txt".to_string(), Ok(stat(0o644)), 1);
    assert!(matches!(hit(&mut a, key(KeyCode::Enter)), Effect::Nothing));
    assert_eq!(message(&a), "apply requires sudo/root");
    let mut e = env(1);
    e.root = true;
    match a.handle_key_event(key(KeyCode::Enter), &e) {
        Effect::ApplyPerms { path, mode } => assert_eq!((path.as_str(), mode), ("/r/c.txt", 0o644)),
        _ => panic!(),
    }
    a.perms_applied(Ok(()), 1);
    assert_eq!(message(&a), "permissions applied");
    a.perms_applied(Err("denied".to_string()), 1);
    assert_eq!(message(&a), "apply failed: denied");
    assert!(is_root(0) && !is_root(1000));
}

#[test]
fn permissions_below_are_confirmed() {
    let mut a = app();
    a.perms_loaded("/r/a".to_string(), Ok(stat(0o755)), 1);
    hit(&mut a, key(KeyCode::Right));
    hit(&mut a, key(KeyCode::Enter));
    assert!(a.perms.as_ref().unwrap().confirm_recursive);
    assert_eq!(a.perms.as_ref().unwrap().confirm_cursor, 1);
    hit(&mut a, key(KeyCode::Enter));
    assert!(!a.perms.as_ref().unwrap().confirm_recursive);
    hit(&mut a, key(KeyCode::Enter));
    hit(&mut a, key(KeyCode::Left));
    hit(&mut a, key(KeyCode::Enter));
    assert_eq!(message(&a), "recursive apply requires sudo/root");
    let mut e = env(1);
    e.root = true;
    hit(&mut a, key(KeyCode::Enter));
    hit(&mut a, key(KeyCode::Tab));
    assert!(matches!(
        a.handle_key_event(ch(' '), &e),
        Effect::ApplyPermsRecursive { path, mode } if path == "/r/a" && mode == 0o755
    ));
    a.perms_applied_below(ApplyOutcome::Applied(12), 1);
    assert_eq!(message(&a), "applied to 12 entries");
    a.perms_applied_below(ApplyOutcome::Failed("x: denied".to_string()), 1);
    assert_eq!(message(&a), "apply failed: x: denied");
    a.perms_applied_below(ApplyOutcome::Missing, 1);
    assert_eq!(message(&a), "path no longer exists: /r/a");
    hit(&mut a, key(KeyCode::Right));
    hit(&mut a, key(KeyCode::Enter));
    assert!(a.perms.is_none());
}

#[test]
fn permissions_as_letters() {
    assert_eq!(mode_string(0o755, true), "drwxr-xr-x");
    assert_eq!(mode_string(0o644, false), "-rw-r--r--");
    assert_eq!(mode_string(0o4755, false), "-rwsr-xr-x");
    assert_eq!(mode_string(0o4644, false), "-rwSr--r--");
    assert_eq!(mode_string(0o2755, false), "-rwxr-sr-x");
    assert_eq!(mode_string(0o1777, true), "drwxrwxrwt");
    assert_eq!(mode_string(0o1776, true), "drwxrwxrwT");
    assert_eq!(mode_string(0, false), "----------");
}

#[test]
fn permission_cells() {
    let mut p = PermsState::from_path("/f".to_string(), Ok(stat(0))).ok().unwrap();
    let bits = [0o400, 0o200, 0o100, 0o40, 0o20, 0o10, 4, 2, 1, 0o4000, 0o2000, 0o1000];
    for (i, b) in bits.iter().enumerate() {
        p.cursor = i;
        p.toggle_cursor();
        assert_eq!(p.mode, *b);
        p.toggle_cursor();
        assert_eq!(p.mode, 0);
    }
    p.cursor = 13;
    p.toggle_cursor();
    assert_eq!(p.mode, 0);
    p.cursor = 0;
    p.move_cursor(-1, -1);
    assert_eq!(p.cursor, 0);
    p.move_cursor(5, 9);
    assert_eq!(p.cursor, 14);
    assert!(p.clone_apply_target(true).is_ok());
    assert_eq!(p.clone_apply_target(false).err().unwrap(), "path no longer exists: /f");
    let e = PermsState::from_path("/f".to_string(), Err("gone".to_string()));
    assert_eq!(e.err().unwrap(), "stat /f: gone");
}

#[test]
fn files_are_edited() {
    let mut a = app();
    hit(&mut a, ch('G'));
    assert!(matches!(hit(&mut a, ch('e')), Effect::OpenEditor { path } if path == "/r/c.txt"));
    a.editor_loaded("/r".to_string(), EditorLoad::IsDir, 1);
    assert_eq!(message(&a), "editor: cannot open a directory");
    let load = EditorLoad::File(FileRead::NoRead("denied".to_string()));
    a.editor_loaded("/r/c.txt".to_string(), load, 1);
    assert_eq!(message(&a), "editor: cannot read /r/c.txt: denied");
    let read = FileRead::Read { size: 2, bytes: b"hi".to_vec() };
    a.editor_loaded("/r/c.txt".to_string(), EditorLoad::File(read), 1);
    assert_eq!(a.screen, Screen::Editor);
    hit(&mut a, ch('q'));
    assert_eq!(a.editor.as_ref().unwrap().lines, vec!["qhi"]);
    assert!(matches!(hit(&mut a, ctrl('w')), Effect::SaveFile { close: true }));
    a.file_saved(9, SaveOutcome::RenameFailed("busy".to_string()), true);
    assert!(a.editor.is_some());
    a.cursor = 77;
    a.file_saved(9, SaveOutcome::Saved, true);
    assert!(a.editor.is_none());
    assert_eq!((a.screen, a.cursor), (Screen::Main, 4));
}

#[test]
fn closing_the_editor_leads_back() {
    let mut a = app();
    let read = FileRead::Read { size: 2, bytes: b"hi".to_vec() };
    a.editor_loaded("/r/c.txt".to_string(), EditorLoad::File(read), 1);
    hit(&mut a, key(KeyCode::Esc));
    assert!(a.editor.is_none());
    assert_eq!(a.screen, Screen::Main);
    assert!(matches!(hit(&mut a, ch('q')), Effect::Quit));
}

#[test]
fn clicks_select_and_drill() {
    let mut a = app();
    a.body_rect = Rect::new(0, 1, 80, 18);
    let m = mouse(MouseKind::LeftDown, 3, 2);
    assert!(a.accepts_mouse(m, 1000));
    assert!(matches!(a.handle_mouse_event(m, 1000), Effect::Nothing));
    assert_eq!(a.cursor, 1);
    assert!(matches!(
        a.handle_mouse_event(m, 1000 + DOUBLE_CLICK_NS - 1),
        Effect::Rescan { path, .. } if path == "/r/a"
    ));
    let mut a = app();
    a.body_rect = Rect::new(0, 1, 80, 18);
    a.handle_mouse_event(m, 1000);
    assert!(matches!(a.handle_mouse_event(m, 1000 + DOUBLE_CLICK_NS), Effect::Nothing));
    assert!(matches!(
        a.handle_mouse_event(mouse(MouseKind::LeftDown, 3, 3), 1001 + DOUBLE_CLICK_NS),
        Effect::Nothing
    ));
    assert_eq!(a.cursor, 2);
    a.handle_mouse_event(mouse(MouseKind::LeftDown, 3, 15), 0);
    assert_eq!(a.cursor, 2);
    assert!(matches!(a.handle_mouse_event(mouse(MouseKind::Other, 3, 1), 0), Effect::Nothing));
    assert_eq!(a.cursor, 2);
}

#[test]
fn the_first_region_is_clicked() {
    let mut a = app();
    let r = Rect::new(0, 0, 5, 1);
    a.hits = vec![
        HitRegion { rect: r, action: Action::OpenHelp },
        HitRegion { rect: r, action: Action::Quit },
    ];
    a.handle_mouse_event(mouse(MouseKind::LeftDown, 4, 0), 1);
    assert_eq!((a.screen, a.should_quit), (Screen::Help, false));
    assert!(point_in(r, 4, 0) && !point_in(r, 5, 0) && !point_in(r, 0, 1));
    assert!(!point_in(Rect { x: 65535, y: 0, width: 9, height: 1 }, 65535, 0));
}

#[test]
fn actions() {
    let mut a = app();
    a.apply_action(Action::SetMode(Mode::Flat), false, 1);
    assert_eq!(a.config.mode, Mode::Flat);
    a.apply_action(Action::CycleSort, false, 1);
    assert_eq!(a.config.sort_order, SortOrder::Asc);
    a.apply_action(Action::ToggleHidden, false, 1);
    a.apply_action(Action::ToggleEmpty, false, 1);
    a.apply_action(Action::TogglePercent, false, 1);
    a.apply_action(Action::ToggleModified, false, 1);
    let v = a.config.view;
    assert!(!v.show_hidden && v.show_empty && !v.show_percent && !v.show_modified);
    assert!(a.status_msg.is_none());
    a.filter.active = true;
    a.apply_action(Action::ClearFilter, false, 1);
    assert!(!a.filter.active);
    a.apply_action(Action::OpenWarnings, false, 1);
    assert_eq!(a.screen, Screen::Warnings);
    assert!(matches!(a.apply_action(Action::CloseOverlay, false, 1), Effect::Nothing));
    a.apply_action(Action::OpenSettings, false, 1);
    a.apply_action(Action::SettingsRow(4), false, 1);
    assert_eq!((a.settings_cursor, a.config.view.show_percent), (4, true));
    a.apply_action(Action::SettingsClearFilter, false, 1);
    a.apply_action(Action::SettingsResetDefaults, false, 1);
    assert_eq!(a.config.mode, Mode::Tree);
    assert!(matches!(a.apply_action(Action::CloseOverlay, false, 1), Effect::SaveSettings));
    assert_eq!(a.screen, Screen::Main);
    a.apply_action(Action::OpenSettings, false, 1);
    assert!(matches!(a.apply_action(Action::Quit, false, 1), Effect::SaveSettings));
    assert!(a.should_quit);
    a.apply_action(Action::SelectRow(2), false, 1);
    assert_eq!(a.cursor, 2);
}

#[test]
fn the_wheel_scrolls() {
    let mut a = app();
    a.handle_mouse_event(mouse(MouseKind::ScrollDown, 0, 0), 1);
    assert_eq!(a.cursor, 3);
    a.handle_mouse_event(mouse(MouseKind::ScrollUp, 0, 0), 1);
    assert_eq!(a.cursor, 0);
    a.screen = Screen::Settings;
    a.handle_mouse_event(mouse(MouseKind::ScrollDown, 0, 0), 1);
    assert_eq!(a.settings_cursor, 3);
    a.handle_mouse_event(mouse(MouseKind::ScrollUp, 0, 0), 1);
    assert_eq!(a.settings_cursor, 0);
    a.screen = Screen::Warnings;
    a.handle_mouse_event(mouse(MouseKind::ScrollDown, 0, 0), 1);
    assert_eq!(a.warnings_scroll, 1);
    a.cursor = 99;
    a.screen = Screen::Main;
    assert!(!a.accepts_mouse(mouse(MouseKind::ScrollUp, 0, 0), 1));
    assert!(!a.accepts_key(key(KeyCode::Up)));
    assert!(a.accepts_key(key(KeyCode::Down)));
}

fn type_text(a: &mut App, s: &str) {
    for c in s.chars() {
        assert!(matches!(hit(a, ch(c)), Effect::Nothing));
    }
}

fn item_error(a: &App) -> Option<String> {
    a.new_item.as_ref().and_then(|n| n.error.clone())
}

#[test]
fn a_new_file_is_asked_for() {
    let mut a = app();
    assert!(matches!(hit(&mut a, ch('n')), Effect::Nothing));
    assert_eq!(a.screen, Screen::NewItem);
    assert_eq!(a.new_item.as_ref().unwrap().mode, "644");
    type_text(&mut a, "qxx");
    hit(&mut a, key(KeyCode::Backspace));
    assert_eq!(a.new_item.as_ref().unwrap().name, "qx");
    assert_eq!(a.cursor, 0);
    match hit(&mut a, key(KeyCode::Enter)) {
        Effect::CreateItem { path, mode, is_dir } => {
            assert_eq!((path.as_str(), mode, is_dir), ("/r/qx", 0o644, false));
        },
        _ => panic!("nothing was asked for"),
    }
    assert!(matches!(a.item_created(Err("File exists".to_string()), 5), Effect::Nothing));
    assert_eq!(item_error(&a), Some("File exists".to_string()));
    assert_eq!(a.new_item.as_ref().unwrap().name, "qx");
    type_text(&mut a, "y");
    assert_eq!(item_error(&a), None);
    match a.item_created(Ok(()), 5) {
        Effect::Rescan { path } => assert_eq!(path, "/r"),
        _ => panic!("the directory is not scanned again"),
    }
    assert_eq!(message(&a), "created /r/qxy");
    assert_eq!(a.screen, Screen::Main);
    assert!(a.new_item.is_none());
    assert!(matches!(a.item_created(Ok(()), 6), Effect::Nothing));
}

#[test]
fn a_new_directory_has_its_own_mode() {
    let mut a = app();
    hit(&mut a, ch('N'));
    assert_eq!(a.new_item.as_ref().unwrap().mode, "755");
    type_text(&mut a, "d");
    hit(&mut a, key(KeyCode::Tab));
    for _ in 0..3 {
        hit(&mut a, key(KeyCode::Backspace));
    }
    type_text(&mut a, "7777");
    hit(&mut a, key(KeyCode::Down));
    match hit(&mut a, key(KeyCode::Enter)) {
        Effect::CreateItem { path, mode, is_dir } => {
            assert_eq!((path.as_str(), mode, is_dir), ("/r/d", 0o7777, true));
        },
        _ => panic!("nothing was asked for"),
    }
}

#[test]
fn wrong_items_are_refused() {
    let mut a = app();
    hit(&mut a, ch('n'));
    assert!(matches!(hit(&mut a, key(KeyCode::Enter)), Effect::Nothing));
    assert_eq!(item_error(&a), Some("name is empty".to_string()));
    type_text(&mut a, "a/b");
    assert!(matches!(hit(&mut a, key(KeyCode::Enter)), Effect::Nothing));
    assert_eq!(item_error(&a), Some("name holds a slash".to_string()));
    hit(&mut a, key(KeyCode::Backspace));
    hit(&mut a, key(KeyCode::Backspace));
    hit(&mut a, key(KeyCode::Tab));
    for mode in ["", "8", "12345", "7a", "00644"] {
        a.new_item.as_mut().unwrap().mode = String::new();
        type_text(&mut a, mode);
        assert!(matches!(hit(&mut a, key(KeyCode::Enter)), Effect::Nothing));
        assert_eq!(item_error(&a), Some("mode is not one to four octal digits".to_string()));
    }
    assert_eq!(a.screen, Screen::NewItem);
}

#[test]
fn the_popup_can_be_left() {
    let mut a = app();
    hit(&mut a, ch('n'));
    hit(&mut a, key(KeyCode::Esc));
    assert_eq!(a.screen, Screen::Main);
    assert!(a.new_item.is_none());
    hit(&mut a, ch('N'));
    hit(&mut a, key(KeyCode::BackTab));
    hit(&mut a, key(KeyCode::Left));
    hit(&mut a, ch('q'));
    hit(&mut a, key(KeyCode::Right));
    assert!(matches!(hit(&mut a, key(KeyCode::Enter)), Effect::Nothing));
    assert_eq!(a.screen, Screen::Main);
    assert!(a.new_item.is_none());
}
