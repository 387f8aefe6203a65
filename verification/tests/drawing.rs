use diskvis::cli::Mode;
use diskvis::config::Config;
use diskvis::editor::file::FileRead;
use diskvis::editor::EditorPrompt;
use diskvis::layout::Rect;
use diskvis::paths::name_of;
use diskvis::splash::splash_frame;
use diskvis::style::{Color, Line, Style};
use diskvis::tui::draw::body::{draw_scrollbar, selected_style};
use diskvis::tui::draw::picker::picker_rect;
use diskvis::tui::draw::screen::{centered_rect, measure};
use diskvis::tui::draw::{Canvas, Widget};
use diskvis::tui::navigate::EditorLoad;
use diskvis::tui::perms::PermsStat;
use diskvis::tui::spotlight::{SpotlightEntry, SpotlightState};
use diskvis::tui::{Action, App, Env, Screen};
use diskvis::walker::Node;
use ratatui::layout as grid;

fn file(path: &str, size: u64) -> Node {
    Node {
        path: path.to_string(),
        name: name_of(path),
        size,
        is_dir: false,
        modified: None,
        mode: Some(0o644),
        children: Vec::new(),
    }
}

fn sample() -> Node {
    let children =
        vec![file("/r/big", 750), file("/r/.dot", 200), file("/r/one", 50), file("/r/nil", 0)];
    Node {
        path: "/r".to_string(),
        name: "r".to_string(),
        size: 1000,
        is_dir: true,
        modified: None,
        mode: Some(0o755),
        children,
    }
}

fn app() -> App {
    let mut c = Config::default();
    c.show_files = true;
    c.view.show_modified = false;
    App::new(sample(), "/r".to_string(), c, 0, Vec::new())
}

fn env(now: u64) -> Env {
    Env { now, home: None, root: false }
}

fn area() -> Rect {
    Rect::new(0, 0, 80, 24)
}

fn text(line: &Line) -> String {
    line.spans.iter().map(|s| s.content.as_str()).collect()
}

/// The paragraphs that start in a cell, as text.
fn at(widgets: &Vec<Widget>, x: u16, y: u16) -> Vec<Vec<String>> {
    widgets
        .iter()
        .filter_map(|w| match w {
            Widget::Para { rect, lines, .. } if rect.x == x && rect.y == y => {
                Some(lines.iter().map(text).collect())
            },
            _ => None,
        })
        .collect()
}

fn same(a: grid::Rect, b: Rect) -> bool {
    (a.x, a.y, a.width, a.height) == (b.x, b.y, b.width, b.height)
}

fn outer(r: Rect) -> grid::Rect {
    grid::Rect::new(r.x, r.y, r.width, r.height)
}

#[test]
fn popups_are_centered() {
    for (px, py) in [(70u16, 80u16), (80, 80), (64, 60), (50, 25), (60, 30), (100, 100), (0, 0)] {
        for w in [0u16, 1, 2, 3, 7, 20, 79, 80, 81, 99, 133, 200, 500] {
            for h in 0..60u16 {
                let r = Rect::new(3, 2, w, h);
                let c = centered_rect(px, py, r);
                let part = |n: u16, p: u16| ((n as u32 * p as u32 + 50) / 100) as u16;
                let (l, t) = ((100 - px) / 2, (100 - py) / 2);
                assert_eq!(
                    c,
                    Rect {
                        x: 3 + part(w, l),
                        y: 2 + part(h, t),
                        width: part(w, l + px) - part(w, l),
                        height: part(h, t + py) - part(h, t),
                    }
                );
                let percent = grid::Constraint::Percentage;
                let column = grid::Layout::vertical([percent(t), percent(py), percent(t)])
                    .split(outer(r))[1];
                let cell = grid::Layout::horizontal([percent(l), percent(px), percent(l)])
                    .split(column)[1];
                assert!(same(cell, c));
            }
        }
    }
}

#[test]
fn screens_are_divided() {
    for h in 6..200u16 {
        for filter in [false, true] {
            let f = filter as u16;
            let a = Rect::new(1, 2, 40, h);
            let p = measure(a, filter);
            let row = |y: u16, n: u16| Rect { x: 1, y: 2 + y, width: 40, height: n };
            assert_eq!(p.title, row(0, 1));
            assert_eq!(p.body, row(1, h - 4 - f));
            assert_eq!(p.path, row(h - 3 - f, 1));
            assert_eq!(p.filter, row(h - 2 - f, f));
            assert_eq!(p.status_top, row(h - 2, 1));
            assert_eq!(p.status_bottom, row(h - 1, 1));
            assert_eq!(p.editor.title, row(0, 1));
            assert_eq!(p.editor.body, row(1, h - 2));
            assert_eq!(p.editor.hint, row(h - 1, 1));
        }
    }
}

#[test]
fn small_screens_stay_inside() {
    for h in 0..6u16 {
        for filter in [false, true] {
            let a = Rect::new(1, 2, 40, h);
            let p = measure(a, filter);
            for r in [p.title, p.body, p.path, p.filter, p.status, p.status_top, p.status_bottom] {
                assert!(r.y >= 2 && r.y + r.height <= 2 + h);
                assert_eq!((r.x, r.width), (1, 40));
            }
        }
    }
}

#[test]
fn the_title_bar() {
    let mut a = app();
    let widgets = a.draw(area(), &env(0));
    assert_eq!(at(&widgets, 0, 0)[0], vec![" diskvis "]);
    assert_eq!(at(&widgets, 10, 0)[0], vec![" Tree "]);
    assert_eq!(at(&widgets, 17, 0)[0], vec![" Bars "]);
    assert_eq!(at(&widgets, 24, 0)[0], vec![" Treemap "]);
    assert_eq!(at(&widgets, 34, 0)[0], vec![" Flat "]);
    assert_eq!(at(&widgets, 42, 0)[0], vec!["/r"]);
    assert_eq!(at(&widgets, 69, 0)[0], vec!["[?]"]);
    assert_eq!(at(&widgets, 73, 0)[0], vec!["[⚙]"]);
    assert_eq!(at(&widgets, 77, 0)[0], vec!["[✕]"]);
    let find = |x: u16, y: u16| {
        a.hits
            .iter()
            .find(|h| h.rect.contains(x, y))
            .map(|h| h.action)
    };
    assert_eq!(find(12, 0), Some(Action::SetMode(Mode::Tree)));
    assert_eq!(find(39, 0), Some(Action::SetMode(Mode::Flat)));
    assert_eq!(find(70, 0), Some(Action::OpenHelp));
    assert_eq!(find(74, 0), Some(Action::OpenSettings));
    assert_eq!(find(79, 0), Some(Action::Quit));
    assert_eq!(find(50, 0), None);
}

#[test]
fn a_narrow_title_bar_has_no_buttons() {
    let mut c = Canvas::new();
    app().draw_title(&mut c, Rect::new(0, 0, 13, 1));
    assert_eq!(c.hits.len(), 4);
    assert_eq!(c.hits[0].rect, Rect::new(10, 0, 3, 1));
    assert_eq!(c.hits[1].rect.width, 0);
    let mut c = Canvas::new();
    let mut a = app();
    a.root.path = "/a/very/long/path/to/somewhere".to_string();
    a.draw_title(&mut c, Rect::new(0, 0, 66, 1));
    // Eleven columns are left.
    assert_eq!(at(&c.widgets, 42, 0)[0], vec!["…/somewhere"]);
}

#[test]
fn the_rows() {
    let mut a = app();
    a.cursor = 1;
    let widgets = a.draw(area(), &env(0));
    let body = &at(&widgets, 0, 1)[0];
    assert_eq!(
        *body,
        vec![
            "  /r  1000 B  100.0%",
            "▶ ├── big  750 B   75.0%",
            "  ├── .dot  200 B   20.0%",
            "  ├── one  50 B    5.0%",
            "  └── nil  0 B    0.0%",
        ]
    );
    for w in &widgets {
        if let Widget::Para { rect, lines, marked, wrap, .. } = w {
            if rect.x == 0 && rect.y == 1 {
                assert!(*wrap);
                assert_eq!(*marked, Some((1, selected_style())));
                // Hidden and empty entries are dimmed, others are not.
                assert!(!lines[1].spans[3].style.add_modifier.dim);
                assert!(lines[2].spans[3].style.add_modifier.dim);
                assert!(lines[4].spans[3].style.add_modifier.dim);
            }
        }
    }
    assert_eq!(a.body_rect, Rect::new(0, 1, 80, 20));
    assert_eq!((a.body_visible_rows, a.body_scroll), (20, 0));
}

#[test]
fn rows_scroll_to_the_cursor() {
    let mut a = app();
    for i in 0..50u64 {
        a.root.children.push(file(&format!("/r/f{:02}", i), 10));
    }
    a.cursor = 54;
    let widgets = a.draw(area(), &env(0));
    assert_eq!((a.scroll, a.body_scroll, a.cursor), (35, 35, 54));
    let rows = &at(&widgets, 0, 1)[0];
    assert_eq!(rows.len(), 20);
    assert!(rows[19].starts_with("▶ "));
    let bar = &at(&widgets, 79, 1)[0];
    assert_eq!(bar.len(), 20);
    assert_eq!(bar[19], "█");
    assert_eq!(bar[0], "│");
    a.cursor = 2;
    a.draw(area(), &env(0));
    assert_eq!(a.scroll, 2);
    a.cursor = 1000;
    a.draw(area(), &env(0));
    assert_eq!(a.cursor, 54);
}

#[test]
fn scrollbars_are_in_proportion() {
    for h in [1u16, 2, 5, 10, 20, 47] {
        for total in [1usize, 2, 10, 21, 55, 100, 999, 123_456] {
            for view in [1u16, 5, 20, 47] {
                for scroll in [0usize, 1, 7, 50, 900, 123_000] {
                    let mut c = Canvas::new();
                    draw_scrollbar(&mut c, Rect::new(0, 0, 1, h), total, view, scroll);
                    let cells = at(&c.widgets, 0, 0).remove(0);
                    let n = h as usize;
                    let v = view as usize;
                    let size = ((v as f64 / total as f64) * n as f64).max(1.0).round() as usize;
                    let size = size.min(n);
                    let far = total.saturating_sub(v).max(1);
                    let top = ((scroll as f64 / far as f64) * (n - size) as f64).round() as usize;
                    let top = top.min(n - size);
                    for i in 0..n {
                        let want = if i >= top && i < top + size { "█" } else { "│" };
                        assert_eq!(cells[i], want, "{} {} {} {}", h, total, view, scroll);
                    }
                }
            }
        }
    }
    let mut c = Canvas::new();
    draw_scrollbar(&mut c, Rect::new(0, 0, 1, 0), 5, 1, 0);
    draw_scrollbar(&mut c, Rect::new(0, 0, 1, 5), 0, 1, 0);
    assert!(c.widgets.is_empty());
}

#[test]
fn the_treemap_is_a_widget() {
    let mut a = app();
    a.config.mode = Mode::Treemap;
    a.scroll = 3;
    let widgets = a.draw(area(), &env(0));
    assert!(widgets.iter().any(
        |w| matches!(w, Widget::Treemap { rect } if *rect == Rect::new(0, 1, 80, 20))
    ));
    assert_eq!((a.body_scroll, a.body_visible_rows), (0, 20));
}

#[test]
fn the_status_bar() {
    let mut a = app();
    let widgets = a.draw(area(), &env(0));
    assert_eq!(at(&widgets, 0, 21)[0], vec!["/r"]);
    assert_eq!(
        at(&widgets, 0, 22)[0],
        vec![" path: /r  |  total: 1000 B  |  files: 4  |  dirs: 1"]
    );
    assert_eq!(at(&widgets, 0, 23), vec![vec![""], vec![" sort: size ↓ "]]);
    assert_eq!(at(&widgets, 15, 23)[0], vec![" mode: Tree "]);
    assert_eq!(at(&widgets, 28, 23)[0], vec![" hidden: ON "]);
    assert_eq!(at(&widgets, 41, 23)[0], vec![" empty: hidden "]);
    assert_eq!(at(&widgets, 57, 23)[0], vec![" %: ON "]);
    assert_eq!(at(&widgets, 65, 23)[0], vec![" mod: OFF "]);
    a.warnings = vec!["w".to_string()];
    a.filter.active = true;
    let widgets = a.draw(area(), &env(0));
    assert!(at(&widgets, 0, 22)[0][0].ends_with("dirs: 1  ⚠ 1 (w)"));
    assert!(a.hits.iter().any(|h| h.action == Action::OpenWarnings && h.rect.y == 22));
    // There is no room for the filter in eighty columns.
    assert!(!a.hits.iter().any(|h| h.action == Action::ClearFilter));
    let widgets = a.draw(Rect::new(0, 0, 120, 24), &env(0));
    assert_eq!(at(&widgets, 76, 23)[0], vec![" depth: 1 "]);
    let clear = a.hits.iter().find(|h| h.action == Action::ClearFilter).unwrap();
    assert_eq!(clear.rect, Rect::new(87, 23, 16, 1));
    let depth = a.hits.iter().find(|h| h.action == Action::Noop).unwrap();
    assert_eq!(depth.rect, Rect::new(76, 23, 10, 1));
}

#[test]
fn messages_fade() {
    let mut a = app();
    a.flash("hello".to_string(), 5);
    let widgets = a.draw(area(), &env(3_000_000_004));
    assert_eq!(at(&widgets, 0, 22)[0], vec![" hello"]);
    let widgets = a.draw(area(), &env(3_000_000_005));
    assert!(at(&widgets, 0, 22)[0][0].starts_with(" path: "));
    a.rescanning = true;
    let widgets = a.draw(area(), &env(5));
    assert_eq!(at(&widgets, 0, 22)[0], vec![" Scanning…"]);
}

#[test]
fn the_filter_bar() {
    let mut a = app();
    a.filter.active = true;
    a.filter.editing = true;
    a.filter.query = "o".to_string();
    let widgets = a.draw(area(), &env(0));
    assert_eq!(at(&widgets, 0, 21)[0], vec![" Filter:  o█  (2 matches)"]);
    a.filter.editing = false;
    let widgets = a.draw(area(), &env(0));
    assert_eq!(at(&widgets, 0, 21)[0], vec![" Filter:  o  (2 matches)"]);
    assert_eq!(a.body_rect.height, 19);
}

fn blocks(widgets: &Vec<Widget>) -> Vec<(Rect, String, Style)> {
    widgets
        .iter()
        .filter_map(|w| match w {
            Widget::Block { rect, title, border } => {
                Some((*rect, title.content.clone(), *border))
            },
            _ => None,
        })
        .collect()
}

#[test]
fn the_help() {
    let mut a = app();
    a.screen = Screen::Help;
    let widgets = a.draw(area(), &env(0));
    assert_eq!(
        blocks(&widgets),
        vec![(Rect::new(12, 2, 56, 20), " Help ".to_string(), Style::plain())]
    );
    let lines = &at(&widgets, 13, 3)[0];
    assert_eq!(lines.len(), 39);
    assert_eq!(lines[0], "diskvis — keybinds");
    assert_eq!(lines[1], "");
    assert_eq!(lines[3], "  j / k / ↑↓     navigate one row");
    assert_eq!(lines[38], "Mouse: click rows, double-click drills, scroll wheel navigates.");
}

#[test]
fn the_warnings() {
    let mut a = app();
    a.screen = Screen::Warnings;
    let widgets = a.draw(area(), &env(0));
    let lines = &at(&widgets, 9, 3)[0];
    assert_eq!(lines[0], " Warnings  (0 skipped) ");
    assert_eq!(lines[3], "No warnings — nothing was skipped.");
    a.warnings = (0..40).map(|i| format!("w{}", i)).collect();
    a.warnings_scroll = 30;
    let widgets = a.draw(area(), &env(0));
    let lines = &at(&widgets, 9, 3)[0];
    assert_eq!(lines.len(), 13);
    assert_eq!((lines[3].as_str(), lines[12].as_str()), ("w30", "w39"));
    a.warnings_scroll = 0;
    let widgets = a.draw(area(), &env(0));
    assert_eq!(at(&widgets, 9, 3)[0].len(), 3 + 15);
}

#[test]
fn the_settings() {
    let mut a = app();
    a.screen = Screen::Settings;
    a.settings_cursor = 16;
    let widgets = a.draw(area(), &env(0));
    // Fifteen of seventeen lines fit.
    assert_eq!(a.settings_scroll, 2);
    let lines = &at(&widgets, 13, 3)[0];
    assert_eq!(lines.len(), 18);
    assert_eq!(lines[0], "Settings");
    assert_eq!(lines[17], "▶ [Reset to defaults]");
    let panel: Vec<_> =
        a.hits.iter().filter(|h| h.rect.x == 13 && h.rect.width == 54).collect();
    assert_eq!(panel.len(), 15);
    assert_eq!(panel[0].action, Action::SettingsRow(2));
    assert_eq!(panel[0].rect, Rect::new(13, 6, 54, 1));
    assert_eq!(panel[14].action, Action::SettingsResetDefaults);
}

fn perms(a: &mut App) {
    let stat = PermsStat {
        is_dir: true,
        uid: 0,
        gid: 5,
        owner: Some("root".to_string()),
        group: None,
        mode: 0o4755,
    };
    a.perms_loaded("/r".to_string(), Ok(stat), 0);
}

#[test]
fn the_permissions() {
    let mut a = app();
    perms(&mut a);
    let widgets = a.draw(area(), &env(0));
    let b = blocks(&widgets);
    assert_eq!(b[0].1, " Permissions: /r ");
    assert_eq!(b[0].2, Style::plain().fg(Color::Cyan));
    let inner = b[0].0.inside();
    let lines = &at(&widgets, inner.x, inner.y)[0];
    assert_eq!(
        *lines,
        vec![
            "  Owner: root (0)    Group: 5 (5)",
            "  Mode:  drwsr-xr-x  (4755)",
            "",
            "  Owner [r] [w] [x] ",
            "  Group [r] [ ] [x] ",
            "  Other [r] [ ] [x] ",
            "",
            "  Special  [x] SUID  [ ] SGID  [ ] Sticky  ",
            "",
            "  [ Apply ]  [ Apply Recursively ]  [ Cancel ]  ",
            "  (Apply requires sudo/root — only Cancel is available)",
            "",
            "  Arrows: navigate   Space: toggle   Enter: activate   Esc: cancel",
        ]
    );
    let mut e = env(0);
    e.root = true;
    let widgets = a.draw(area(), &e);
    assert_eq!(at(&widgets, inner.x, inner.y)[0].len(), 12);
}

#[test]
fn the_question_before_recursion() {
    let mut a = app();
    perms(&mut a);
    a.perms.as_mut().unwrap().confirm_recursive = true;
    let widgets = a.draw(area(), &env(0));
    let b = blocks(&widgets);
    assert_eq!(b[1].1, " Confirm recursive chmod ");
    let inner = b[1].0.inside();
    assert_eq!(
        at(&widgets, inner.x, inner.y)[0],
        vec![
            "",
            "  Apply mode 4755 to ALL entries under:",
            "    /r",
            "",
            "     Yes, apply      Cancel ",
        ]
    );
}

#[test]
fn the_picker() {
    let mut a = app();
    let mut s = SpotlightState::new("/etc/".to_string(), 0);
    let popup = picker_rect(area());
    assert_eq!(popup, Rect::new(16, 4, 48, 12));
    a.spotlight = Some(SpotlightState::new("/etc/".to_string(), 0));
    let widgets = a.draw(area(), &env(0));
    assert_eq!(at(&widgets, 17, 5)[0], vec!["  󰍉  /etc/█"]);
    assert_eq!(at(&widgets, 17, 6)[0], vec!["─".repeat(46)]);
    assert_eq!(at(&widgets, 17, 7)[0], vec!["    (no matches)"]);
    assert!(at(&widgets, 17, 14)[0][0].starts_with(" ↑↓ navigate"));
    s.candidates = (0..20)
        .map(|i| SpotlightEntry {
            path: format!("/etc/{}", i),
            name: i.to_string(),
            is_dir: i % 2 == 0,
            size_hint: None,
        })
        .collect();
    s.selected = 10;
    a.spotlight = Some(s);
    let widgets = a.draw(area(), &env(0));
    // Seven rows, the selected entry last.
    assert_eq!(at(&widgets, 17, 7)[0], vec!["    /etc/4/"]);
    assert_eq!(at(&widgets, 17, 13)[0], vec!["  ▸ /etc/10/"]);
    assert_eq!(at(&widgets, 17, 12)[0], vec!["    /etc/9"]);
    let widgets = a.draw(Rect::new(0, 0, 80, 7), &env(0));
    assert_eq!(blocks(&widgets).len(), 1);
    assert_eq!(picker_rect(Rect::new(0, 0, 30, 10)).width, 28);
}

#[test]
fn the_editor() {
    let mut a = app();
    let read = FileRead::Read { size: 2, bytes: b"hi\n".to_vec() };
    a.editor_loaded("/r/a.txt".to_string(), EditorLoad::File(read), 0);
    let widgets = a.draw(area(), &env(0));
    assert_eq!(a.editor.as_ref().unwrap().last_size, (80, 24));
    let title = &at(&widgets, 0, 0).pop().unwrap()[0];
    assert!(title.starts_with(" /r/a.txt  ·  Plain Text  ·  L1:C1"));
    assert_eq!(title.chars().count(), 81);
    let rows = at(&widgets, 0, 1).pop().unwrap();
    assert_eq!(rows.len(), 22);
    assert!(rows[0].starts_with("1  █i"));
    assert!(at(&widgets, 0, 23).pop().unwrap()[0].starts_with("Ctrl-S save"));
    a.editor.as_mut().unwrap().prompt = Some(EditorPrompt::Message { text: "saved".to_string() });
    let widgets = a.draw(area(), &env(0));
    assert_eq!(at(&widgets, 0, 23).pop().unwrap(), vec![" saved "]);
    a.editor.as_mut().unwrap().prompt = Some(EditorPrompt::GotoLine { input: "12".to_string() });
    let widgets = a.draw(area(), &env(0));
    assert_eq!(at(&widgets, 0, 23).pop().unwrap(), vec![" Goto line:  12█"]);
}

#[test]
fn questions_of_the_editor() {
    let mut a = app();
    let read = FileRead::Read { size: 2, bytes: b"hi\n".to_vec() };
    a.editor_loaded("/r/a.txt".to_string(), EditorLoad::File(read), 0);
    a.editor.as_mut().unwrap().prompt = Some(EditorPrompt::UnsavedClose { selection: 1 });
    let widgets = a.draw(area(), &env(0));
    let b = blocks(&widgets);
    assert_eq!((b[0].1.as_str(), b[0].0), (" Unsaved changes ", centered_rect(50, 25, area())));
    let inner = b[0].0.inside();
    assert_eq!(
        at(&widgets, inner.x, inner.y)[0],
        vec![
            "",
            "  This file has unsaved changes.",
            "",
            "   Save & Close    Discard    Cancel ",
        ]
    );
    a.editor.as_mut().unwrap().prompt =
        Some(EditorPrompt::LargeFile { selection: 0, size: 13_000_000 });
    let widgets = a.draw(area(), &env(0));
    let b = blocks(&widgets);
    assert_eq!(
        (b[0].1.as_str(), b[0].0),
        (" Large or binary file ", centered_rect(60, 30, area()))
    );
    let inner = b[0].0.inside();
    assert_eq!(
        at(&widgets, inner.x, inner.y)[0],
        vec![
            "",
            "  This file is 12.4 MB or appears to contain binary data.",
            "  Editing it may be slow or destructive.",
            "",
            "   Open anyway      Cancel ",
        ]
    );
}

#[test]
fn the_splash() {
    assert!(splash_frame(51, 24, "/r", 0, 0, 0, "1.8.0").is_none());
    assert!(splash_frame(80, 10, "/r", 0, 0, 0, "1.8.0").is_none());
    let s = splash_frame(80, 24, "/r", 0, 42, 3, "1.8.0").unwrap();
    assert_eq!(s.lines[7], format!("│{:^48}│", "3s elapsed"));
    assert_eq!((s.x, s.y, s.lines.len()), (15, 7, 9));
    assert!(s.lines.iter().all(|l| l.chars().count() == 50));
    assert_eq!(s.lines[0], format!("╭{}╮", "─".repeat(48)));
    assert_eq!(s.lines[2], format!("│{:^48}│", "d i s k v i s"));
    assert_eq!(s.lines[3], format!("│{:^48}│", "v1.8.0"));
    assert_eq!(s.lines[5], format!("│{:48}│", " Scanning /r"));
    assert_eq!(s.lines[6], format!("│ {}{}     42 dirs │", "█".repeat(4), "░".repeat(30)));
    let long = format!("/{}", "x".repeat(60));
    let s = splash_frame(80, 24, &long, 17, 0, 1234, "1").unwrap();
    assert_eq!(s.lines[5], format!("│ Scanning ...{} │", "x".repeat(34)));
    // Seventeen ticks reach the end of the bar.
    assert!(s.lines[6].starts_with(&format!("│ {}███  ", "░".repeat(31))));
}

#[test]
fn the_popup_for_a_new_entry() {
    let mut a = app();
    a.start_item(true);
    a.new_item.as_mut().unwrap().type_char('d');
    let widgets = a.draw(area(), &env(0));
    let b = blocks(&widgets);
    assert_eq!(b[0].1, " New directory ");
    assert_eq!(b[0].2, Style::plain().fg(Color::Cyan));
    let inner = b[0].0.inside();
    assert_eq!(
        at(&widgets, inner.x, inner.y)[0],
        vec!["  Name: d█", "  Mode: 755", "", "", "   Create      Cancel "]
    );
    a.item_created(Err("no".to_string()), 1);
    let widgets = a.draw(area(), &env(0));
    assert_eq!(at(&widgets, inner.x, inner.y)[0][2], "  no");
}
