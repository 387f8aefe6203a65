use diskvis::tui::spotlight::{
    directory_of, expand_tilde, filter_entries, longest_common_prefix, sort_listing, split_input,
    SpotlightEntry, SpotlightResp, SpotlightState,
};

fn entry(name: &str, is_dir: bool) -> SpotlightEntry {
    SpotlightEntry {
        path: format!("/d/{}", name),
        name: name.to_string(),
        is_dir,
        size_hint: None,
    }
}

fn names(entries: &Vec<SpotlightEntry>) -> Vec<&str> {
    entries.iter().map(|e| e.name.as_str()).collect()
}

fn pair(a: &str, b: &str) -> (String, String) {
    (a.to_string(), b.to_string())
}

#[test]
fn a_tilde_is_home() {
    let home = Some("/home/me");
    assert_eq!(expand_tilde("~", home), "/home/me");
    assert_eq!(expand_tilde("~/", home), "/home/me/");
    assert_eq!(expand_tilde("~/docs", home), "/home/me/docs");
    assert_eq!(expand_tilde("~//etc", home), "/etc");
    assert_eq!(expand_tilde("~docs", home), "~docs");
    assert_eq!(expand_tilde("/a/~/b", home), "/a/~/b");
    assert_eq!(expand_tilde("~", None), "~");
    assert_eq!(expand_tilde("~/docs", None), "~/docs");
    assert_eq!(expand_tilde("", home), "");
}

#[test]
fn input_is_parent_and_rest() {
    let home = Some("/home/me");
    assert_eq!(split_input("", home), pair("/", ""));
    assert_eq!(split_input("/", home), pair("/", ""));
    assert_eq!(split_input("///", home), pair("/", ""));
    assert_eq!(split_input("/etc", home), pair("/", "etc"));
    assert_eq!(split_input("/etc/", home), pair("/etc", ""));
    assert_eq!(split_input("/etc//", home), pair("/etc", ""));
    assert_eq!(split_input("/etc/pas", home), pair("/etc", "pas"));
    assert_eq!(split_input("etc", home), pair("/", "etc"));
    assert_eq!(split_input("a/b", home), pair("a", "b"));
    assert_eq!(split_input("/a/..", home), pair("/a", ""));
    assert_eq!(split_input("~", home), pair("/home", "me"));
    assert_eq!(split_input("~/d", home), pair("/home/me", "d"));
}

#[test]
fn offers_begin_with_what_is_typed() {
    let all = vec![entry("Alpha", true), entry("beta", false), entry("ALSO", false)];
    assert_eq!(names(&filter_entries(&all, "al")), vec!["Alpha", "ALSO"]);
    assert_eq!(names(&filter_entries(&all, "BE")), vec!["beta"]);
    assert_eq!(names(&filter_entries(&all, "")), vec!["Alpha", "beta", "ALSO"]);
    assert!(filter_entries(&Vec::new(), "").is_empty());
    assert!(filter_entries(&all, "x").is_empty());
    let many: Vec<_> = (0..100).map(|i| entry(&format!("n{}", i), false)).collect();
    assert_eq!(filter_entries(&many, "").len(), 64);
    assert_eq!(filter_entries(&many, "n").len(), 64);
    assert_eq!(filter_entries(&many, "n1").len(), 11);
}

#[test]
fn prefixes_ignore_case() {
    let of = |list: &[&str]| {
        longest_common_prefix(&list.iter().map(|s| s.to_string()).collect())
    };
    assert_eq!(of(&[]), "");
    assert_eq!(of(&["abc"]), "abc");
    assert_eq!(of(&["abc", "abd"]), "ab");
    assert_eq!(of(&["ABc", "abd", "aBe"]), "AB");
    assert_eq!(of(&["abc", "xyz", "abc"]), "");
    assert_eq!(of(&["ab", "abc"]), "ab");
    assert_eq!(of(&["éa", "Éa"]), "");
    assert_eq!(of(&["éa", "éb"]), "é");
}

#[test]
fn listings_have_directories_first() {
    let all = vec![
        entry("b", false),
        entry("Zed", true),
        entry("A", false),
        entry("alpha", true),
        entry("a", false),
    ];
    assert_eq!(names(&sort_listing(&all)), vec!["alpha", "Zed", "A", "a", "b"]);
    assert_eq!(directory_of(""), "/");
    assert_eq!(directory_of("/etc"), "/etc");
}

#[test]
fn readings_are_asked_for_and_answered() {
    let mut s = SpotlightState::new("/d/".to_string(), 0);
    let req = s.refresh(true, 0, None).unwrap();
    assert_eq!(req.parent, "/d");
    let stale = SpotlightResp {
        generation: req.generation.wrapping_sub(1),
        parent: "/d".to_string(),
        entries: vec![entry("old", false)],
    };
    s.answer(stale, None);
    assert!(s.candidates.is_empty());
    let entries = vec![entry("sub", true), entry("subway", false), entry("x", false)];
    let parent = req.parent;
    s.answer(SpotlightResp { generation: req.generation, parent, entries }, None);
    assert_eq!(names(&s.candidates), vec!["sub", "subway", "x"]);
    // What is known of the directory is offered while it is read again.
    let again = s.retype("/d/s".to_string(), 1_000_000_000, None).unwrap();
    assert_eq!((again.parent.as_str(), again.partial.as_str()), ("/d", "s"));
    assert_eq!(names(&s.candidates), vec!["sub", "subway"]);
    s.complete(1_000_000_000, None);
    assert_eq!(s.input, "/d/sub");
}
