use diskvis::bytes::{length, locate};
use diskvis::order::{order_of, Key};
use diskvis::text::{
    center, contains_text, decimal, drop_last_char, ends_with_char, number, pad_end, pad_start,
    repeat_char, starts_with_char, starts_with_text, tail_chars, take_chars, trim_end_char,
};
use diskvis::tui::draw::{cut_tail, label_width};

#[test]
fn padding_is_that_of_format() {
    for s in ["", "a", "abc", "häß", "日本語", "0123456789"] {
        for w in 0..12usize {
            assert_eq!(pad_start(s, w), format!("{:>w$}", s, w = w));
            assert_eq!(pad_end(s, w), format!("{:<w$}", s, w = w));
            assert_eq!(center(s, w), format!("{:^w$}", s, w = w));
        }
    }
}

#[test]
fn numbers_are_written_in_bases() {
    assert_eq!(decimal(0), "0");
    assert_eq!(decimal(u64::MAX), "18446744073709551615");
    for n in [0u128, 1, 7, 8, 0o644, 0o755, 0o7777, 123_456_789] {
        assert_eq!(number(n, 8), format!("{:o}", n));
        assert_eq!(number(n, 2), format!("{:b}", n));
        assert_eq!(number(n, 10), format!("{}", n));
    }
}

#[test]
fn pieces_of_texts() {
    assert_eq!(take_chars("häuser", 2), "hä");
    assert_eq!(take_chars("ab", 9), "ab");
    assert_eq!(tail_chars("häuser", 2), "er");
    assert_eq!(tail_chars("ab", 9), "ab");
    assert_eq!(drop_last_char("ñ"), "");
    assert_eq!(drop_last_char(""), "");
    assert_eq!(trim_end_char("a//b///", '/'), "a//b");
    assert_eq!(trim_end_char("///", '/'), "");
    assert_eq!(repeat_char('─', 3), "───");
    assert!(starts_with_char(".x", '.') && !starts_with_char("", '.'));
    assert!(ends_with_char("x/", '/') && !ends_with_char("", '/'));
}

#[test]
fn searching_texts() {
    assert!(starts_with_text("abc", "ab") && starts_with_text("abc", ""));
    assert!(!starts_with_text("ab", "abc"));
    for (hay, needle) in
        [("", ""), ("a", ""), ("abcabd", "abd"), ("aab", "ab"), ("aaa", "aaaa"), ("xyz", "yx")]
    {
        assert_eq!(contains_text(hay, needle), hay.contains(needle), "{:?} {:?}", hay, needle);
    }
}

#[test]
fn long_paths_lose_their_start() {
    assert_eq!(cut_tail("/usr/share", 10), "/usr/share");
    assert_eq!(cut_tail("/usr/share", 6), "…share");
    assert_eq!(cut_tail("/usr/share", 1), "…");
    assert_eq!(cut_tail("/usr/share", 0), "…");
    assert_eq!(cut_tail("", 0), "");
    assert_eq!(label_width("[⚙]"), 3);
    assert_eq!(label_width(&"x".repeat(65_537)), 1);
}

#[test]
fn bytes_and_chars() {
    assert_eq!(length("aé日😀"), "aé日😀".len());
    // 'a' takes byte 0, 'é' bytes 1 and 2.
    assert_eq!(locate("aé", 0), (0, true));
    assert_eq!(locate("aé", 1), (1, true));
    assert_eq!(locate("aé", 2), (1, false));
    assert_eq!(locate("aé", 3), (2, true));
}

#[test]
fn sorting_is_stable() {
    let keys = vec![Key::Size(3), Key::Size(1), Key::Size(3), Key::Size(2)];
    assert_eq!(order_of(&keys, false), vec![1, 3, 0, 2]);
    assert_eq!(order_of(&keys, true), vec![0, 2, 3, 1]);
    let names = ["b", "a", "ab", ""];
    let keys: Vec<Key> = names.iter().map(|n| Key::Name(n.chars().collect())).collect();
    assert_eq!(order_of(&keys, false), vec![3, 1, 2, 0]);
    assert_eq!(order_of(&keys, true), vec![0, 2, 1, 3]);
}
