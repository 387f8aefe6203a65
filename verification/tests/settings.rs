use diskvis::cli::{is_interactive, should_log_stderr, term_width, Cli, Mode, SortBy, SortOrder};
use diskvis::config::{config_path, default_excludes, save_target, Config, Theme};

fn cli() -> Cli {
    Cli {
        path: ".".to_string(),
        depth: None,
        min_size: 0,
        sort: None,
        mode: None,
        exclude: Vec::new(),
        json: false,
        no_color: false,
        show_files: false,
        modified: false,
        verbose: false,
    }
}

fn strings(v: &[&str]) -> Vec<String> {
    v.iter().map(|s| s.to_string()).collect()
}

#[test]
fn first_run_settings() {
    let c = Config::default();
    assert_eq!(c.theme, Theme::Default);
    assert_eq!(c.depth, 1);
    assert_eq!((c.sort, c.sort_order, c.mode), (SortBy::Size, SortOrder::Desc, Mode::Tree));
    assert!(!c.show_files && !c.show_modified);
    assert!(c.view.show_hidden && !c.view.show_empty);
    assert!(c.view.show_percent && c.view.show_modified);
    assert_eq!(c.excludes, default_excludes());
    assert_eq!(
        c.excludes,
        strings(&[
            "target", ".git", "node_modules", ".DS_Store", "/proc", "/sys", "/dev", "/run", "/tmp"
        ])
    );
    assert_eq!(c.excludes_enabled, vec![true; 9]);
}

#[test]
fn old_settings_are_healed() {
    let mut c = Config::default();
    c.excludes = strings(&["mine", "/sys"]);
    c.excludes_enabled = vec![false];
    let c = Config::load(Some(c));
    assert_eq!(c.excludes, strings(&["mine", "/sys", "/proc", "/dev", "/run", "/tmp"]));
    assert_eq!(c.excludes_enabled, vec![true; 6]);
    let mut again = c.copy();
    again.heal();
    assert_eq!(again.excludes, c.excludes);
    assert_eq!(again.excludes_enabled, c.excludes_enabled);
}

#[test]
fn healing_keeps_flags_that_fit() {
    let mut c = Config::default();
    c.excludes_enabled[0] = false;
    c.heal();
    assert!(!c.excludes_enabled[0]);
    assert_eq!(c.excludes.len(), 9);
    assert!(!c.active_excludes().contains(&"target".to_string()));
    assert_eq!(c.active_excludes().len(), 8);
}

#[test]
fn missing_settings_are_those_of_a_first_run() {
    let c = Config::load(None);
    assert_eq!(c.excludes, Config::default().excludes);
    assert_eq!(c.depth, Config::default().depth);
}

#[test]
fn patterns_are_added_once() {
    let mut c = Config::default();
    c.add_pattern("x".to_string());
    c.add_pattern("x".to_string());
    c.add_pattern("target".to_string());
    assert_eq!(c.excludes.len(), 10);
    assert_eq!(c.excludes_enabled.len(), 10);
    assert_eq!(c.active_excludes().last().unwrap(), "x");
}

#[test]
fn command_line_overrides() {
    let mut c = Config::default();
    c.apply_cli(&cli());
    assert_eq!((c.depth, c.mode, c.sort), (1, Mode::Tree, SortBy::Size));
    let mut o = cli();
    o.depth = Some(5);
    o.sort = Some(SortBy::Name);
    o.mode = Some(Mode::Bars);
    o.show_files = true;
    o.modified = true;
    o.exclude = strings(&["*.tmp", "target"]);
    c.apply_cli(&o);
    assert_eq!((c.depth, c.mode, c.sort), (5, Mode::Bars, SortBy::Name));
    assert!(c.show_files && c.show_modified);
    assert_eq!(c.excludes.len(), 10);
    assert_eq!(c.excludes[9], "*.tmp");
    assert_eq!(c.sort_order, SortOrder::Asc);
    c.sort_order = SortOrder::Desc;
    c.apply_cli(&cli());
    assert_eq!((c.sort, c.sort_order), (SortBy::Name, SortOrder::Desc));
    o.sort = Some(SortBy::Size);
    c.apply_cli(&o);
    assert_eq!((c.sort, c.sort_order), (SortBy::Size, SortOrder::Desc));
}

#[test]
fn settings_lie_in_the_home_directory() {
    assert_eq!(config_path(Some("/home/u")).unwrap(), "/home/u/.config/diskvis/config.toml");
    assert!(config_path(None).is_none());
    let t = save_target(Some("/home/u")).unwrap();
    assert_eq!(t.dir.unwrap(), "/home/u/.config/diskvis");
    assert_eq!(t.file, "/home/u/.config/diskvis/config.toml");
    assert!(save_target(None).is_none());
}

#[test]
fn screens_need_a_terminal() {
    let mut o = cli();
    assert!(is_interactive(&o, true));
    assert!(!is_interactive(&o, false));
    o.json = true;
    assert!(!is_interactive(&o, true));
    o.json = false;
    o.no_color = true;
    assert!(!is_interactive(&o, true));
    assert!(should_log_stderr(true) && should_log_stderr(false));
    assert_eq!(term_width(Some((132, 50))), 132);
    assert_eq!(term_width(None), 80);
}
