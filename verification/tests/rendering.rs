use diskvis::cli::{Mode, SortBy, SortOrder};
use diskvis::config::{Config, Theme};
use diskvis::display::{
    bars, can_render, compute_hidden_summary, dim_style, dir_style, file_style, flat,
    hidden_summary_row, name_span, print_rows, render_rows, size_style, sort_nodes, tree, treemap,
    RenderOptions, Row,
};
use diskvis::layout::Rect;
use diskvis::paths::name_of;
use diskvis::plain::{plain_options, summary_line, warning_line};
use diskvis::stamp::LocalTime;
use diskvis::style::{style_to_ansi, Color, Line, Modifiers, Style};
use diskvis::walker::Node;

fn file(path: &str, size: u64) -> Node {
    Node {
        path: path.to_string(),
        name: name_of(path),
        size,
        is_dir: false,
        modified: LocalTime::new(0, 0),
        mode: Some(0o644),
        children: Vec::new(),
    }
}

fn dir(path: &str, children: Vec<Node>) -> Node {
    Node {
        path: path.to_string(),
        name: name_of(path),
        size: children.iter().map(|c| c.size).sum(),
        is_dir: true,
        modified: None,
        mode: Some(0o755),
        children,
    }
}

/// Two directories, two files and a hidden file.
fn sample() -> Node {
    dir(
        "/r",
        vec![
            dir("/r/docs", vec![file("/r/docs/x.md", 1024), file("/r/docs/Y.md", 512)]),
            file("/r/b.txt", 512),
            file("/r/.hid", 256),
            dir("/r/empty", Vec::new()),
        ],
    )
}

fn opts() -> RenderOptions {
    RenderOptions {
        theme: Theme::Default,
        depth: 2,
        min_size: 0,
        sort: SortBy::Size,
        sort_order: SortOrder::Desc,
        show_files: true,
        show_modified: false,
        width: 60,
        height: 24,
        hidden_summary: None,
    }
}

fn texts(rows: &Vec<Row>) -> Vec<String> {
    print_rows(rows, false)
}

#[test]
fn tree_of_everything() {
    let rows = tree::render(&sample(), &opts());
    assert_eq!(
        texts(&rows),
        vec![
            "/r  2.25 KB",
            "├── docs  1.50 KB",
            "│   ├── x.md  1.00 KB",
            "│   └── Y.md  512 B",
            "├── b.txt  512 B",
            "├── .hid  256 B",
            "└── empty  0 B",
        ]
    );
    assert_eq!(rows[2].path.as_deref(), Some("/r/docs/x.md"));
    assert!(rows[1].is_dir && !rows[2].is_dir);
    assert_eq!((rows[1].size, rows[1].name.as_str()), (1536, "docs"));
}

#[test]
fn tree_without_files_is_directories() {
    let mut o = opts();
    o.show_files = false;
    assert_eq!(
        texts(&tree::render(&sample(), &o)),
        vec!["/r  2.25 KB", "├── docs  1.50 KB", "└── empty  0 B"]
    );
    o.depth = 0;
    assert_eq!(texts(&tree::render(&sample(), &o)), vec!["/r  2.25 KB"]);
}

#[test]
fn tree_hides_small_and_hidden_entries() {
    let mut o = opts();
    o.min_size = 512;
    o.depth = 1;
    assert_eq!(
        texts(&tree::render(&sample(), &o)),
        vec!["/r  2.25 KB", "├── docs  1.50 KB", "└── b.txt  512 B"]
    );
    o.min_size = 0;
    o.hidden_summary = compute_hidden_summary(&sample(), false);
    assert_eq!(o.hidden_summary, Some((1, 256)));
    let rows = tree::render(&sample(), &o);
    assert_eq!(
        texts(&rows),
        vec![
            "/r  2.25 KB",
            "├── docs  1.50 KB",
            "├── b.txt  512 B",
            "└── empty  0 B",
            "··· 1 hidden item  (256 B  |  11%)",
        ]
    );
    assert!(rows[4].is_hidden_summary && rows[4].path.is_none() && rows[4].name.is_empty());
}

#[test]
fn tree_shows_dates_and_order() {
    let mut o = opts();
    o.depth = 1;
    o.show_modified = true;
    o.sort = SortBy::Name;
    o.sort_order = SortOrder::Asc;
    assert_eq!(
        texts(&tree::render(&sample(), &o)),
        vec![
            "/r  2.25 KB",
            "├── .hid  256 B  1970-01-01 00:00",
            "├── b.txt  512 B  1970-01-01 00:00",
            "├── docs  1.50 KB  -",
            "└── empty  0 B  -",
        ]
    );
}

#[test]
fn names_sort_without_case() {
    let d = dir("/r", vec![file("/r/b", 1), file("/r/A", 2), file("/r/C", 3)]);
    let mut v: Vec<&Node> = d.children.iter().collect();
    sort_nodes(&mut v, SortBy::Name, SortOrder::Asc);
    assert_eq!(v.iter().map(|n| n.name.as_str()).collect::<Vec<_>>(), vec!["A", "b", "C"]);
    sort_nodes(&mut v, SortBy::Name, SortOrder::Desc);
    assert_eq!(v.iter().map(|n| n.name.as_str()).collect::<Vec<_>>(), vec!["C", "b", "A"]);
    sort_nodes(&mut v, SortBy::Size, SortOrder::Asc);
    assert_eq!(v.iter().map(|n| n.size).collect::<Vec<_>>(), vec![1, 2, 3]);
}

#[test]
fn equal_sizes_keep_their_order() {
    let d = dir("/r", vec![file("/r/b", 1), file("/r/a", 1), file("/r/c", 1)]);
    for order in [SortOrder::Asc, SortOrder::Desc] {
        let mut v: Vec<&Node> = d.children.iter().collect();
        sort_nodes(&mut v, SortBy::Size, order);
        assert_eq!(v.iter().map(|n| n.name.as_str()).collect::<Vec<_>>(), vec!["b", "a", "c"]);
    }
}

#[test]
fn flat_list_of_files() {
    let rows = flat::render(&sample(), &opts());
    assert_eq!(
        texts(&rows),
        vec![
            "/r (flat files)  2.25 KB",
            "     1.00 KB  docs/x.md",
            "       512 B  docs/Y.md",
            "       512 B  b.txt",
            "       256 B  .hid",
        ]
    );
    let mut o = opts();
    o.hidden_summary = Some((1, 256));
    o.sort = SortBy::Name;
    o.sort_order = SortOrder::Asc;
    assert_eq!(
        texts(&flat::render(&sample(), &o)),
        vec![
            "/r (flat files)  2.25 KB",
            "       512 B  b.txt",
            "     1.00 KB  docs/x.md",
            "       512 B  docs/Y.md",
            "··· 1 hidden item  (256 B  |  11%)",
        ]
    );
}

#[test]
fn flat_list_leaves_out_hidden_directories() {
    let d = dir(
        "/r",
        vec![dir("/r/.git", vec![file("/r/.git/config", 9)]), file("/r/a", 1)],
    );
    let mut o = opts();
    o.hidden_summary = compute_hidden_summary(&d, false);
    assert_eq!(
        texts(&flat::render(&d, &o)),
        vec!["/r (flat files)  10 B", "         1 B  a", "··· 1 hidden item  (9 B  |  90%)"]
    );
}

#[test]
fn bars_are_scaled_to_the_largest() {
    let mut o = opts();
    o.depth = 1;
    // 60 columns leave twenty for the bar.
    let rows = bars::render(&sample(), &o);
    let lines = texts(&rows);
    assert_eq!(lines[0], "/r  2.25 KB");
    assert_eq!(
        lines[1],
        format!("{:<24} {:>12} {}", "docs", "1.50 KB", "█".repeat(20))
    );
    assert_eq!(
        lines[2],
        format!("{:<24} {:>12} {}{}", "b.txt", "512 B", "█".repeat(6), "░".repeat(14))
    );
    assert_eq!(
        lines[4],
        format!("{:<24} {:>12} {}", "empty", "0 B", "░".repeat(20))
    );
    assert_eq!(rows.len(), 5);
}

#[test]
fn hidden_items_have_a_bar() {
    let mut o = opts();
    o.hidden_summary = Some((1, 256));
    let rows = bars::render(&sample(), &o);
    let lines = texts(&rows);
    assert_eq!(
        lines[3],
        format!(
            "{:<24} {:>12} {}{}",
            "Hidden Items  11.1%",
            "256 B",
            "█".repeat(3),
            "░".repeat(17)
        )
    );
    assert!(rows[3].is_hidden_summary && rows[3].name.is_empty() && rows[3].path.is_none());
}

#[test]
fn long_names_are_cut_in_bars() {
    let name = "a_rather_long_name_for_a_file.txt";
    let d = dir("/r", vec![file(&format!("/r/{}", name), 5)]);
    let lines = texts(&bars::render(&d, &opts()));
    assert!(lines[1].starts_with("a_rather_long_name_for_…          5 B "));
    // A cut in the middle of a character cannot be made.
    let wide = "x".repeat(22) + "éé";
    let d = dir("/r", vec![file(&format!("/r/{}", wide), 5)]);
    assert!(!bars::names_can_be_cut(&d, &opts()));
    assert!(!can_render(&d, &opts(), Mode::Bars));
    assert!(can_render(&d, &opts(), Mode::Tree));
}

#[test]
fn treemap_splits_by_size() {
    let d = dir("/r", vec![file("/r/big", 300), file("/r/small", 100)]);
    let mut o = opts();
    o.width = 20;
    o.height = 8;
    let lines = texts(&treemap::render(&d, &o));
    assert_eq!(
        lines,
        vec![
            "/r  400 B           ",
            "┌─────────────┐░░░░░",
            "│             │░░░░░",
            "│     big     │░░░░░",
            "│    300 B    │░░░░░",
            "│             │░░░░░",
            "│             │░░░░░",
            "└─────────────┘░░░░░",
        ]
    );
}

#[test]
fn treemap_nests_directories() {
    let d = dir("/r", vec![dir("/r/d", vec![file("/r/d/f", 2_000_000)])]);
    let mut o = opts();
    o.width = 20;
    o.height = 10;
    let lines = texts(&treemap::render(&d, &o));
    assert_eq!(lines[0], "/r  1.91 MB         ");
    assert_eq!(lines[1], "┌──────────────────┐");
    assert_eq!(lines[4], "│┌────────────────┐│");
    assert_eq!(lines[5], "││       f        ││");
    assert_eq!(lines[6], "││    1.91 MB     ││");
    o.depth = 1;
    let lines = texts(&treemap::render(&d, &o));
    assert_eq!(lines[4], "│        d         │");
    assert_eq!(lines[5], "│     1.91 MB      │");
}

#[test]
fn treemap_blocks_keep_their_colors() {
    assert_eq!(treemap::color_for(1, true), Style::plain().fg(Color::Blue).bold());
    assert_eq!(treemap::color_for(1, false), Style::plain().fg(Color::Green));
    assert_eq!(treemap::color_for(1 << 20, false), Style::plain().fg(Color::Yellow));
    assert_eq!(treemap::color_for(101 << 20, false), Style::plain().fg(Color::Red).bold());
    let d = dir("/r", vec![file("/r/big", 300), file("/r/small", 100)]);
    let mut o = opts();
    o.width = 20;
    o.height = 8;
    let rows = treemap::render(&d, &o);
    let border = &rows[1].line.spans[0];
    assert_eq!(border.content, "┌─────────────┐");
    assert_eq!(border.style.fg, Some(Color::Green));
    assert_eq!(border.style.bg, Some(Color::Reset));
    let shade = &rows[1].line.spans[1];
    assert_eq!(shade.content, "░░░░░");
    assert!(shade.style.add_modifier.dim && !shade.style.add_modifier.bold);
}

#[test]
fn treemap_draws_where_it_is_told() {
    let d = dir("/r", vec![file("/r/a", 1)]);
    let mut buf = ratatui::buffer::Buffer::empty(ratatui::layout::Rect::new(0, 0, 20, 10));
    let area = Rect::new(5, 2, 10, 6);
    treemap::render_treemap(&d, &opts(), area, &mut buf);
    let at = |x: u16, y: u16| buf.cell((x, y)).unwrap().symbol().to_string();
    assert_eq!(at(5, 2), "/");
    assert_eq!(at(5, 3), "┌");
    assert_eq!(at(14, 7), "┘");
    for y in 0..10u16 {
        for x in 0..20u16 {
            if !area.contains(x, y) {
                assert_eq!(at(x, y), " ", "{} {}", x, y);
            }
        }
    }
}

#[test]
fn labels_are_truncated() {
    assert_eq!(treemap::truncate_to("abcdef", 6), "abcdef");
    assert_eq!(treemap::truncate_to("abcdef", 4), "abc…");
    assert_eq!(treemap::truncate_to("abcdef", 1), "a");
    assert_eq!(treemap::truncate_to("abcdef", 0), "");
}

#[test]
fn colored_print_has_escapes() {
    let mut line = Line::new();
    line.push_str("a", Style::plain().fg(Color::Blue).bold());
    line.push_str("b", Style::plain());
    let rows = vec![Row::plain(line)];
    assert_eq!(print_rows(&rows, true), vec!["\x1b[1m\x1b[34ma\x1b[0mb\x1b[0m"]);
    assert_eq!(print_rows(&rows, false), vec!["ab"]);
}

#[test]
fn escapes_of_styles() {
    for (c, code) in [
        (Color::Black, "30"),
        (Color::Red, "31"),
        (Color::Gray, "37"),
        (Color::DarkGray, "90"),
        (Color::LightCyan, "96"),
        (Color::White, "97"),
        (Color::Reset, "39"),
        (Color::Rgb(255, 140, 0), "39"),
    ] {
        assert_eq!(style_to_ansi(Style::plain().fg(c)), format!("\x1b[{}m", code));
    }
    assert_eq!(style_to_ansi(Style::plain().dim().bold()), "\x1b[1m\x1b[2m");
    assert_eq!(style_to_ansi(Style::plain().add_modifier(Modifiers::just_italic())), "");
}

#[test]
fn styles_of_themes() {
    let mb = 1u64 << 20;
    assert_eq!(size_style(Theme::Default, mb - 1).fg, Some(Color::Green));
    assert_eq!(size_style(Theme::Default, mb).fg, Some(Color::Yellow));
    assert_eq!(size_style(Theme::Default, 100 * mb).fg, Some(Color::Yellow));
    assert_eq!(size_style(Theme::Default, 100 * mb + 1).fg, Some(Color::Red));
    assert_eq!(size_style(Theme::Monochrome, 0), Style::plain());
    assert_eq!(
        size_style(Theme::HighContrast, u64::MAX),
        Style::plain().fg(Color::LightRed).bold()
    );
    assert_eq!(dir_style(Theme::Monochrome), Style::plain().bold());
    assert_eq!(file_style(Theme::HighContrast), Style::plain().fg(Color::Gray));
    assert_eq!(dim_style(Theme::Monochrome), Style::plain());
    assert_eq!(dim_style(Theme::Default), Style::plain().dim());
    let mut n = file("/f", 1);
    n.mode = Some(0o777);
    assert_eq!(
        name_span(&n, Theme::Default).style,
        Style::plain().fg(Color::Rgb(255, 140, 0)).bold()
    );
}

#[test]
fn hidden_entries_are_counted() {
    assert_eq!(compute_hidden_summary(&sample(), true), None);
    assert_eq!(compute_hidden_summary(&dir("/r", vec![file("/r/a", 1)]), false), None);
    let d = dir("/r", vec![file("/r/.a", u64::MAX / 2), file("/r/.b", 1)]);
    assert_eq!(compute_hidden_summary(&d, false), Some((2, u64::MAX / 2 + 1)));
    let row = hidden_summary_row(2, 3, 0);
    assert_eq!(texts(&vec![row]), vec!["··· 2 hidden items  (3 B  |  0%)"]);
}

#[test]
fn modes_have_their_renderers() {
    let d = sample();
    let o = opts();
    assert_eq!(texts(&render_rows(&d, &o, Mode::Tree)), texts(&tree::render(&d, &o)));
    assert_eq!(texts(&render_rows(&d, &o, Mode::Bars)), texts(&bars::render(&d, &o)));
    assert_eq!(texts(&render_rows(&d, &o, Mode::Flat)), texts(&flat::render(&d, &o)));
    assert_eq!(texts(&render_rows(&d, &o, Mode::Treemap)), texts(&treemap::render(&d, &o)));
}

#[test]
fn plain_output() {
    let d = sample();
    assert_eq!(summary_line(&d, 0), "Total: 2.25 KB (2304 bytes)  files: 4  dirs: 3");
    assert_eq!(
        summary_line(&d, 2),
        "Total: 2.25 KB (2304 bytes)  files: 4  dirs: 3  ⚠ 2 skipped"
    );
    assert_eq!(warning_line("/x: gone"), "warning: /x: gone");
    let mut c = Config::default();
    c.view.show_hidden = false;
    let o = plain_options(&d, &c, 7, 99);
    assert_eq!((o.width, o.height, o.min_size, o.depth), (99, 24, 7, 1));
    assert_eq!(o.hidden_summary, Some((1, 256)));
}
