use diskvis::paths::{name_of, path_eq, relative_path};
use diskvis::stamp::{fmt_modified, LocalTime};
use diskvis::walker::{
    descends, finish_dir, glob_match, is_excluded, is_excluded_entry, keep_entries, runs_parallel,
    scan_root, sort_entries, vfs_excludes, warning, Entry, EntryKind, EntryMeta, Found, Node,
};

fn meta(kind: EntryKind, len: u64, dev: u64) -> EntryMeta {
    EntryMeta { kind, len, dev, modified: None, mode: 0o644 }
}

fn entry(path: &str, kind: EntryKind, len: u64) -> Entry {
    Entry { path: path.to_string(), meta: Ok(meta(kind, len, 1)), target: None }
}

fn file(path: &str, size: u64) -> Node {
    Node {
        path: path.to_string(),
        name: name_of(path),
        size,
        is_dir: false,
        modified: None,
        mode: Some(0o644),
        children: Vec::new(),
    }
}

fn dir(path: &str, children: Vec<Node>) -> Node {
    let size = children.iter().map(|c| c.size).sum();
    Node {
        path: path.to_string(),
        name: name_of(path),
        size,
        is_dir: true,
        modified: None,
        mode: Some(0o755),
        children,
    }
}

#[test]
fn globs_match_whole_names() {
    assert!(glob_match("node_modules", "node_modules"));
    assert!(!glob_match("node_modules", "node_modules2"));
    assert!(glob_match("*.cache", "a.cache"));
    assert!(glob_match("*.cache", ".cache"));
    assert!(!glob_match("*.cache", "a.cache.txt"));
    assert!(glob_match("*", ""));
    assert!(glob_match("", ""));
    assert!(!glob_match("", "a"));
    assert!(glob_match("a?c", "abc"));
    assert!(!glob_match("a?c", "ac"));
    assert!(glob_match("*a*b*", "xxaxxbxx"));
    assert!(!glob_match("*a*b*", "xxbxxaxx"));
    assert!(glob_match("a*b*c", "abbbc"));
    assert!(glob_match("**", "anything"));
    assert!(glob_match("?", "é"));
}

#[test]
fn every_pattern_matches_itself() {
    for p in ["a", "*", "?", "a*b?c", "[x]", "..", "x*"] {
        assert!(glob_match(p, p), "{}", p);
    }
}

#[test]
fn path_patterns_exclude_what_is_below() {
    let pats = vec!["/proc".to_string(), "/a/b/".to_string()];
    assert!(is_excluded_entry("proc", "/proc", &pats));
    assert!(is_excluded_entry("self", "/proc/self", &pats));
    assert!(!is_excluded_entry("process", "/process", &pats));
    assert!(is_excluded_entry("c", "/a/b/c", &pats));
    assert!(is_excluded_entry("b", "/a/b", &pats));
    assert!(!is_excluded_entry("proc", "/home/proc", &pats));
}

#[test]
fn names_are_excluded_by_globs() {
    let pats = vec!["target".to_string(), "*.o".to_string()];
    assert!(is_excluded("target", &pats));
    assert!(is_excluded("x.o", &pats));
    assert!(!is_excluded("x.c", &pats));
    assert!(!is_excluded("x.c", &[]));
    assert_eq!(vfs_excludes(), vec!["/proc", "/sys", "/dev", "/run", "/tmp"]);
}

#[test]
fn excluded_names_are_left_out_in_order() {
    let found = ["/r/a", "/r/target", "/r/b", "/r/x.o", "/r/c"]
        .iter()
        .map(|p| Found { name: name_of(p), path: p.to_string() })
        .collect();
    let pats = vec!["target".to_string(), "*.o".to_string()];
    let kept: Vec<String> = keep_entries(found, &pats).into_iter().map(|f| f.path).collect();
    assert_eq!(kept, vec!["/r/a", "/r/b", "/r/c"]);
}

#[test]
fn entries_are_sorted_out() {
    let mut link_in = entry("/r/in", EntryKind::Symlink, 7);
    link_in.target = Some(meta(EntryKind::Dir, 4096, 1));
    let mut link_out = entry("/r/out", EntryKind::Symlink, 8);
    link_out.target = Some(meta(EntryKind::Dir, 4096, 2));
    let mut link_file = entry("/r/lf", EntryKind::Symlink, 9);
    link_file.target = Some(meta(EntryKind::File, 5000, 1));
    let dangling = entry("/r/dangling", EntryKind::Symlink, 10);
    let lost = Entry {
        path: "/r/lost".to_string(),
        meta: Err("Permission denied".to_string()),
        target: None,
    };
    let entries = vec![
        entry("/r/f", EntryKind::File, 5),
        entry("/r/d", EntryKind::Dir, 4096),
        entry("/r/socket", EntryKind::Other, 0),
        link_in,
        link_out,
        link_file,
        dangling,
        lost,
    ];
    let l = sort_entries(&entries, true, 1);
    let leaves: Vec<(&str, u64)> = l.leaves.iter().map(|n| (n.name.as_str(), n.size)).collect();
    assert_eq!(leaves, vec![("f", 5), ("out", 8), ("lf", 9), ("dangling", 10)]);
    let subdirs: Vec<(&str, u64)> = l.subdirs.iter().map(|n| (n.name.as_str(), n.size)).collect();
    assert_eq!(subdirs, vec![("d", 0), ("in", 0)]);
    assert!(l.subdirs.iter().all(|n| n.is_dir) && l.leaves.iter().all(|n| !n.is_dir));
    assert_eq!(l.warnings, vec!["/r/lost: Permission denied"]);
    let shallow = sort_entries(&entries, false, 1);
    let sizes: Vec<u64> = shallow.subdirs.iter().map(|n| n.size).collect();
    assert_eq!(sizes, vec![4096, 4096]);
}

#[test]
fn directories_sum_up() {
    let (mut root, is_dir) = scan_root("/r".to_string(), &meta(EntryKind::Dir, 4096, 1));
    assert!(is_dir);
    assert_eq!((root.size, root.name.as_str()), (0, "r"));
    finish_dir(
        &mut root,
        vec![file("/r/a", 3), file("/r/b", 4)],
        vec![dir("/r/d", vec![file("/r/d/x", 10)])],
    );
    assert_eq!(root.size, 17);
    assert_eq!(root.children.len(), 3);
    assert_eq!(root.file_count(), 3);
    assert_eq!(root.dir_count(), 2);
    let files: Vec<&str> = root.all_files().iter().map(|n| n.path.as_str()).collect();
    assert_eq!(files.len(), root.file_count());
    assert!(files.contains(&"/r/d/x"));
}

#[test]
fn a_file_can_be_the_root() {
    let (root, is_dir) = scan_root("/r/f".to_string(), &meta(EntryKind::File, 12, 1));
    assert!(!is_dir && !root.is_dir);
    assert_eq!(root.size, 12);
    assert_eq!((root.file_count(), root.dir_count()), (1, 0));
}

#[test]
fn placeholders_are_empty_directories() {
    let n = Node::placeholder("/some/where".to_string());
    assert_eq!((n.name.as_str(), n.size, n.is_dir), ("where", 0, true));
    assert!(n.children.is_empty() && n.modified.is_none() && n.mode.is_none());
}

#[test]
fn unusual_permissions() {
    let mut n = file("/f", 1);
    for (mode, odd) in
        [(0o644, false), (0o755, false), (0o666, true), (0o4755, true), (0o2755, true), (0o1755, false)]
    {
        n.mode = Some(mode);
        assert_eq!(n.has_unusual_perms(), odd, "{:o}", mode);
    }
    n.mode = None;
    assert!(!n.has_unusual_perms());
}

#[test]
fn depth_and_threads() {
    assert!(descends(0, None) && descends(1000, None));
    assert!(!descends(0, Some(1)));
    assert!(!descends(0, Some(0)));
    assert!(descends(0, Some(2)) && !descends(1, Some(2)));
    assert!(runs_parallel(0, 5) && runs_parallel(1, 5));
    assert!(!runs_parallel(0, 4) && !runs_parallel(2, 50));
    assert_eq!(warning("/x", "gone"), "/x: gone");
}

#[test]
fn paths_are_taken_apart() {
    assert_eq!(name_of("/usr/share/doc"), "doc");
    assert_eq!(name_of("/usr/share/"), "share");
    assert_eq!(name_of("/"), "/");
    assert_eq!(relative_path("/a/b/c", "/a"), "b/c");
    assert_eq!(relative_path("/a/b/c", "/x"), "/a/b/c");
    assert!(path_eq(Some("/a/b/"), Some("/a/b")));
    assert!(!path_eq(Some("/a"), Some("/b")));
    assert!(!path_eq(None, None) && !path_eq(Some("/a"), None));
}

#[test]
fn times_are_local() {
    assert_eq!(fmt_modified(None), "-");
    let t = LocalTime::new(0, 0).unwrap();
    assert_eq!(fmt_modified(Some(t)), "1970-01-01 00:00");
    let t = LocalTime::new(1_700_000_000, 3600).unwrap();
    assert_eq!(t.to_second(), "2023-11-14 23:13:20");
    assert_eq!(fmt_modified(Some(t)), "2023-11-14 23:13");
    assert!(LocalTime::new(0, 86_400).is_none());
    assert!(LocalTime::new(i64::MAX, 0).is_none());
}
