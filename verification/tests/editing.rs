use diskvis::editor::columns::{display_col_of, next_word, previous_word};
use diskvis::editor::file::{FileRead, SaveOutcome};
use diskvis::editor::syntax::{plain_region, syn_to_ratatui, Region};
use diskvis::editor::{
    Editor, EditorAction, EditorOutcome, EditorPrompt, MAX_UNDO, SOFT_FILE_LIMIT, UNDO_BATCH_NS,
};
use diskvis::keys::{KeyCode, KeyEvent};
use diskvis::style::{Color, Line, Style};

const STAY: EditorAction = EditorAction::Done(EditorOutcome::Continue);
const LEAVE: EditorAction = EditorAction::Done(EditorOutcome::Close);

fn open(path: &str, text: &str) -> Editor {
    let read = FileRead::Read { size: text.len() as u64, bytes: text.as_bytes().to_vec() };
    match Editor::open(path.to_string(), read) {
        Ok(e) => e,
        Err(e) => panic!("{}", e),
    }
}

fn key(code: KeyCode) -> KeyEvent {
    KeyEvent { code, ctrl: false, shift: false, press: true }
}

fn ctrl(c: char) -> KeyEvent {
    KeyEvent { code: KeyCode::Char(c), ctrl: true, shift: false, press: true }
}

/// Presses keys, each long after the one before.
fn press(e: &mut Editor, clock: &mut u64, keys: &[KeyEvent]) -> EditorAction {
    let mut last = STAY;
    for k in keys {
        *clock += 2 * UNDO_BATCH_NS;
        assert!(e.accepts(*k));
        last = e.handle_key(*k, *clock);
    }
    last
}

fn type_text(e: &mut Editor, clock: &mut u64, text: &str) {
    for c in text.chars() {
        press(e, clock, &[key(KeyCode::Char(c))]);
    }
}

fn text(line: &Line) -> String {
    line.spans.iter().map(|s| s.content.as_str()).collect()
}

#[test]
fn files_are_split_into_lines() {
    assert_eq!(open("/f", "a\nb").lines, vec!["a", "b"]);
    assert_eq!(open("/f", "a\r\nb\r\n").lines, vec!["a", "b", ""]);
    assert_eq!(open("/f", "").lines, vec![""]);
    assert_eq!(open("/f", "\n\n").lines, vec!["", "", ""]);
}

#[test]
fn bytes_that_are_no_text_are_replaced() {
    let read = FileRead::Read { size: 3, bytes: vec![b'a', 0xFF, b'b'] };
    let e = Editor::open("/f".to_string(), read).ok().unwrap();
    assert_eq!(e.lines, vec!["a\u{FFFD}b"]);
}

#[test]
fn files_that_cannot_be_opened() {
    let e = Editor::open("/f".to_string(), FileRead::NoStat("gone".to_string()));
    assert_eq!(e.err().unwrap(), "cannot stat /f: gone");
    let e = Editor::open("/f".to_string(), FileRead::NoRead("denied".to_string()));
    assert_eq!(e.err().unwrap(), "cannot read /f: denied");
}

#[test]
fn large_and_binary_files_are_asked_for() {
    let read = FileRead::Read { size: SOFT_FILE_LIMIT + 1, bytes: b"x".to_vec() };
    let mut e = Editor::open("/f".to_string(), read).ok().unwrap();
    assert!(matches!(e.prompt, Some(EditorPrompt::LargeFile { selection: 1, .. })));
    let mut t = 0;
    assert_eq!(press(&mut e, &mut t, &[key(KeyCode::Left)]), STAY);
    assert_eq!(press(&mut e, &mut t, &[key(KeyCode::Enter)]), STAY);
    assert!(e.prompt.is_none() && e.force_loaded);
    let e = open("/f", "a\0b");
    assert!(matches!(e.prompt, Some(EditorPrompt::LargeFile { .. })));
    let mut e = open("/f", "a\0b");
    assert_eq!(press(&mut e, &mut t, &[key(KeyCode::Enter)]), LEAVE);
    let mut e = open("/f", "a\0b");
    e.confirm_load();
    assert!(e.prompt.is_none() && e.force_loaded);
    let read = FileRead::Read { size: SOFT_FILE_LIMIT, bytes: b"x".to_vec() };
    assert!(Editor::open("/f".to_string(), read).ok().unwrap().prompt.is_none());
}

#[test]
fn languages_are_found_by_extension() {
    assert_eq!(open("/x/main.rs", "").language, "Rust");
    assert_eq!(open("/x/a.py", "").language, "Python");
    assert_eq!(open("/x/Makefile", "").language, "Makefile");
    assert_eq!(open("/x/unknown.zzz", "").language, "Plain Text");
    assert_eq!(open("/x/none", "").language, "Plain Text");
}

#[test]
fn typing_and_deleting() {
    let mut e = open("/f", "ac\nd");
    let mut t = 0;
    press(&mut e, &mut t, &[key(KeyCode::Right)]);
    type_text(&mut e, &mut t, "bé");
    assert_eq!(e.lines, vec!["abéc", "d"]);
    assert_eq!(e.cursor, (0, 4));
    assert!(e.modified);
    press(&mut e, &mut t, &[key(KeyCode::Backspace)]);
    assert_eq!((e.lines[0].as_str(), e.cursor), ("abc", (0, 2)));
    press(&mut e, &mut t, &[key(KeyCode::Delete)]);
    assert_eq!(e.lines[0], "ab");
    press(&mut e, &mut t, &[key(KeyCode::Delete)]);
    assert_eq!(e.lines, vec!["abd"]);
    press(&mut e, &mut t, &[key(KeyCode::Enter)]);
    assert_eq!(e.lines, vec!["ab", "d"]);
    assert_eq!(e.cursor, (1, 0));
    press(&mut e, &mut t, &[key(KeyCode::Backspace)]);
    assert_eq!((e.lines.len(), e.cursor), (1, (0, 2)));
    press(&mut e, &mut t, &[key(KeyCode::Tab)]);
    assert_eq!(e.lines[0], "ab    d");
    press(&mut e, &mut t, &[key(KeyCode::Home), key(KeyCode::Tab), key(KeyCode::BackTab)]);
    assert_eq!(e.lines[0], "ab    d");
}

#[test]
fn lines_are_duplicated_and_killed() {
    let mut e = open("/f", "one\ntwo");
    let mut t = 0;
    press(&mut e, &mut t, &[ctrl('d')]);
    assert_eq!(e.lines, vec!["one", "one", "two"]);
    assert_eq!(e.cursor.0, 1);
    press(&mut e, &mut t, &[ctrl('k')]);
    assert_eq!(e.lines, vec!["one", "two"]);
    press(&mut e, &mut t, &[ctrl('k'), ctrl('k'), ctrl('k')]);
    assert_eq!(e.lines, vec![""]);
}

#[test]
fn undo_and_redo() {
    let mut e = open("/f", "x");
    let mut t = 0;
    type_text(&mut e, &mut t, "ab");
    assert_eq!(e.lines[0], "abx");
    press(&mut e, &mut t, &[ctrl('z')]);
    assert_eq!(e.lines[0], "ax");
    press(&mut e, &mut t, &[ctrl('z')]);
    assert_eq!((e.lines[0].as_str(), e.cursor), ("x", (0, 0)));
    press(&mut e, &mut t, &[ctrl('z')]);
    assert_eq!(e.lines[0], "x");
    e.prompt = None;
    press(&mut e, &mut t, &[ctrl('y')]);
    assert_eq!(e.lines[0], "ax");
    press(&mut e, &mut t, &[ctrl('y')]);
    assert_eq!((e.lines[0].as_str(), e.cursor), ("abx", (0, 2)));
    press(&mut e, &mut t, &[ctrl('z')]);
    type_text(&mut e, &mut t, "c");
    assert_eq!(e.lines[0], "acx");
    assert!(e.redo_stack.is_empty());
}

#[test]
fn quick_edits_are_undone_together() {
    let mut e = open("/f", "");
    for (i, c) in "word".chars().enumerate() {
        e.handle_key(key(KeyCode::Char(c)), 1000 + i as u64);
    }
    assert_eq!(e.lines[0], "word");
    e.handle_key(ctrl('z'), 2000);
    assert_eq!(e.lines[0], "");
}

#[test]
fn undo_has_a_limit() {
    let mut e = open("/f", "");
    let mut t = 0;
    for _ in 0..MAX_UNDO + 10 {
        type_text(&mut e, &mut t, "x");
    }
    assert_eq!(e.undo_stack.len(), MAX_UNDO);
}

#[test]
fn cursor_moves() {
    let mut e = open("/f", "héllo\nhi");
    let mut t = 0;
    press(&mut e, &mut t, &[key(KeyCode::Right), key(KeyCode::Right)]);
    assert_eq!(e.cursor, (0, 3));
    press(&mut e, &mut t, &[key(KeyCode::Left)]);
    assert_eq!(e.cursor, (0, 1));
    press(&mut e, &mut t, &[key(KeyCode::End)]);
    assert_eq!(e.cursor, (0, 6));
    press(&mut e, &mut t, &[key(KeyCode::Down)]);
    assert_eq!(e.cursor, (1, 2));
    press(&mut e, &mut t, &[key(KeyCode::Up), key(KeyCode::Home)]);
    assert_eq!(e.cursor, (0, 0));
    press(&mut e, &mut t, &[key(KeyCode::Left)]);
    assert_eq!(e.cursor, (0, 0));
    press(&mut e, &mut t, &[key(KeyCode::End), key(KeyCode::Right)]);
    assert_eq!(e.cursor, (1, 0));
    press(&mut e, &mut t, &[key(KeyCode::Left)]);
    assert_eq!(e.cursor, (0, 6));
    assert!(!e.modified);
}

#[test]
fn paging_stays_in_the_text() {
    let body: Vec<String> = (0..100).map(|i| i.to_string()).collect();
    let mut e = open("/f", &body.join("\n"));
    e.report_size(80, 23);
    let mut t = 0;
    press(&mut e, &mut t, &[key(KeyCode::PageDown)]);
    assert_eq!(e.cursor.0, 20);
    for _ in 0..9 {
        press(&mut e, &mut t, &[key(KeyCode::PageDown)]);
    }
    assert_eq!(e.cursor.0, 99);
    assert!(e.scroll_row <= 99 && 99 < e.scroll_row + 20);
    for _ in 0..9 {
        press(&mut e, &mut t, &[key(KeyCode::PageUp)]);
    }
    assert_eq!((e.cursor.0, e.scroll_row), (0, 0));
}

#[test]
fn going_to_a_line() {
    let mut e = open("/f", "a\nb\nc");
    let mut t = 0;
    press(&mut e, &mut t, &[ctrl('g'), key(KeyCode::Char('2')), key(KeyCode::Char('x'))]);
    assert!(matches!(&e.prompt, Some(EditorPrompt::GotoLine { input }) if input == "2"));
    press(&mut e, &mut t, &[key(KeyCode::Enter)]);
    assert_eq!((e.cursor, e.prompt.is_none()), ((1, 0), true));
    press(&mut e, &mut t, &[ctrl('g'), key(KeyCode::Char('9')), key(KeyCode::Enter)]);
    assert_eq!(e.cursor, (2, 0));
    press(&mut e, &mut t, &[ctrl('g'), key(KeyCode::Enter)]);
    assert_eq!(e.cursor, (2, 0));
    press(
        &mut e,
        &mut t,
        &[ctrl('g'), key(KeyCode::Char('1')), key(KeyCode::Backspace), key(KeyCode::Esc)],
    );
    assert_eq!((e.cursor, e.prompt.is_none()), ((2, 0), true));
}

#[test]
fn closing_asks_for_changes() {
    let mut e = open("/f", "a");
    let mut t = 0;
    assert_eq!(press(&mut e, &mut t, &[key(KeyCode::Esc)]), LEAVE);
    type_text(&mut e, &mut t, "b");
    assert_eq!(press(&mut e, &mut t, &[ctrl('q')]), STAY);
    assert!(matches!(e.prompt, Some(EditorPrompt::UnsavedClose { selection: 0 })));
    assert_eq!(
        press(&mut e, &mut t, &[key(KeyCode::Enter)]),
        EditorAction::Save { close: true }
    );
    press(&mut e, &mut t, &[ctrl('q'), key(KeyCode::Right)]);
    assert_eq!(press(&mut e, &mut t, &[key(KeyCode::Enter)]), LEAVE);
    press(&mut e, &mut t, &[ctrl('q'), key(KeyCode::Tab), key(KeyCode::Right), key(KeyCode::Tab)]);
    assert!(matches!(e.prompt, Some(EditorPrompt::UnsavedClose { selection: 2 })));
    assert_eq!(press(&mut e, &mut t, &[key(KeyCode::Char(' '))]), STAY);
    assert!(e.prompt.is_none());
    press(&mut e, &mut t, &[ctrl('q'), key(KeyCode::Esc)]);
    assert!(e.prompt.is_none());
}

#[test]
fn saving() {
    let mut e = open("/dir/f.txt", "a\nb");
    let mut t = 0;
    assert_eq!(press(&mut e, &mut t, &[ctrl('s')]), EditorAction::Save { close: false });
    assert_eq!(press(&mut e, &mut t, &[ctrl('w')]), EditorAction::Save { close: true });
    type_text(&mut e, &mut t, "x");
    let plan = e.save_plan(42);
    assert_eq!(plan.temporary, "/dir/.f.txt.diskvis-42.tmp");
    assert_eq!(plan.target, "/dir/f.txt");
    assert_eq!(plan.body, "xa\nb");
    assert_eq!(
        e.save_done(42, SaveOutcome::WriteFailed("full".to_string()), true),
        EditorOutcome::Continue
    );
    assert!(e.modified);
    assert!(matches!(&e.prompt, Some(EditorPrompt::Message { text })
        if text == "save failed: write /dir/.f.txt.diskvis-42.tmp: full"));
    e.save_done(42, SaveOutcome::RenameFailed("busy".to_string()), true);
    assert!(matches!(&e.prompt, Some(EditorPrompt::Message { text })
        if text == "save failed: rename: busy"));
    assert_eq!(e.save_done(42, SaveOutcome::Saved, false), EditorOutcome::Continue);
    assert!(!e.modified);
    assert!(matches!(&e.prompt, Some(EditorPrompt::Message { text })
        if text == "saved /dir/f.txt"));
    assert_eq!(press(&mut e, &mut t, &[key(KeyCode::Char('y'))]), STAY);
    assert!(e.prompt.is_none());
    assert_eq!(e.lines[0], "xa");
    assert_eq!(e.save_done(42, SaveOutcome::Saved, true), EditorOutcome::Close);
}

#[test]
fn saved_text_is_read_back() {
    for text in ["", "a", "a\nb", "a\n\nb\n", "\n"] {
        assert_eq!(open("/f", text).save_plan(1).body, text);
    }
}

#[test]
fn keys_that_are_released_do_nothing() {
    let mut e = open("/f", "a");
    let k = KeyEvent { code: KeyCode::Char('x'), ctrl: false, shift: false, press: false };
    assert_eq!(e.handle_key(k, 0), STAY);
    assert_eq!(e.lines[0], "a");
}

#[test]
fn titles() {
    let mut e = open("/x/a.rs", "ab");
    let mut t = 0;
    assert_eq!(e.title(), "/x/a.rs  ·  Rust  ·  L1:C1");
    type_text(&mut e, &mut t, "é");
    assert!(e.title().starts_with("/x/a.rs  ·  Rust  ·  L1:C3  [modified]"));
    assert!(e.hint().starts_with("Ctrl-S save"));
}

#[test]
fn tabs_are_columns_of_four() {
    assert_eq!(display_col_of("\tx", 1), 4);
    assert_eq!(display_col_of("ab\tx", 3), 4);
    assert_eq!(display_col_of("abcd\tx", 5), 8);
    assert_eq!(display_col_of("é", 2), 1);
    assert_eq!(display_col_of("ab", 9), 2);
}

#[test]
fn words_are_skipped() {
    let lines: Vec<String> = vec!["foo  bar".to_string(), "baz".to_string()];
    assert_eq!(next_word(&lines, 0, 0), (0, 3));
    assert_eq!(next_word(&lines, 0, 3), (0, 8));
    assert_eq!(next_word(&lines, 0, 8), (1, 3));
    assert_eq!(next_word(&lines, 1, 3), (1, 3));
    assert_eq!(previous_word(&lines, 1, 0), (0, 5));
    assert_eq!(previous_word(&lines, 0, 8), (0, 5));
    assert_eq!(previous_word(&lines, 0, 5), (0, 0));
}

#[test]
fn rows_have_numbers_and_a_cursor() {
    let e = open("/f.txt", "hello\nhi");
    let rows = e.view_lines(3, 12);
    assert_eq!(rows.len(), 3);
    // One digit and two blanks, then nine columns of text.
    assert_eq!(text(&rows[0]), "1  █ello    ");
    assert_eq!(text(&rows[1]), "2  hi");
    assert_eq!(text(&rows[2]), "");
}

#[test]
fn cursor_is_seen_behind_the_text() {
    let mut e = open("/f.txt", "ab");
    let mut t = 0;
    press(&mut e, &mut t, &[key(KeyCode::End)]);
    assert_eq!(text(&e.view_lines(1, 8)[0]), "1  ab█  ");
}

#[test]
fn long_lines_are_scrolled() {
    let mut e = open("/f.txt", "abcdefghijklmnop");
    e.report_size(13, 10);
    let mut t = 0;
    press(&mut e, &mut t, &[key(KeyCode::End)]);
    assert!(e.scroll_col > 0);
    let row = text(&e.view_lines(1, 13)[0]);
    assert!(row.contains('█'));
    assert!(!row.contains('a'));
}

#[test]
fn highlighting_keeps_the_text() {
    let source = "fn main() {\n    let s = \"x\";\n}\n";
    let e = open("/a.rs", source);
    let rows = e.view_lines(4, 60);
    let second: String = rows[1].spans.iter().skip(1).map(|s| s.content.as_str()).collect();
    assert_eq!(second.trim_end(), "    let s = \"x\";");
    // A keyword and a string have colors of their own.
    let style_of = |word: &str| {
        rows[1].spans.iter().find(|s| s.content.contains(word)).map(|s| s.style.fg)
    };
    assert_ne!(style_of("let"), style_of("x"));
    assert!(rows[1].spans.len() > 3);
}

#[test]
fn rows_are_made_of_given_regions() {
    let e = open("/f.txt", "ab");
    let red = Region { r: 255, g: 0, b: 0, ..plain_region("ab") };
    let rows = e.rows_from(&vec![vec![red]], 1, 8);
    assert_eq!(text(&rows[0]), "1  █b   ");
    let b = rows[0].spans.iter().find(|s| s.content == "b").unwrap();
    assert_eq!(b.style.fg, Some(Color::Rgb(255, 0, 0)));
}

#[test]
fn region_styles() {
    let plain = plain_region("x");
    let s: Style = syn_to_ratatui(&plain);
    assert!(!s.add_modifier.bold);
    let strong = Region { bold: true, italic: true, underline: true, ..plain_region("x") };
    let s = syn_to_ratatui(&strong);
    assert!(s.add_modifier.bold && s.add_modifier.italic && s.add_modifier.underlined);
}

#[test]
fn different_quick_edits_are_undone_together() {
    let mut e = open("/f", "one\ntwo");
    e.cursor = (1, 1);
    let mut now = 5 * UNDO_BATCH_NS;
    e.insert_char('x', now);
    now += UNDO_BATCH_NS - 1;
    e.split_line(now);
    now += UNDO_BATCH_NS - 1;
    e.backspace(now);
    now += 1;
    e.duplicate_line(now);
    e.kill_line(now);
    e.insert_str("abc", now);
    assert_eq!(e.undo_stack.len(), 1);
    e.undo();
    assert_eq!(e.lines, vec!["one", "two"]);
    assert_eq!(e.cursor, (1, 1));
    // A pause starts another step.
    e.insert_char('a', 100 * UNDO_BATCH_NS);
    e.insert_char('b', 101 * UNDO_BATCH_NS);
    assert_eq!(e.undo_stack.len(), 2);
    e.undo();
    assert_eq!(e.lines, vec!["one", "tawo"]);
}

#[test]
fn files_are_saved_as_they_were() {
    for s in ["", "\n", "a", "a\n", "a\nb", "\n\na\n\n", "é\tü\n漢字", "\u{feff}x\n"] {
        let e = open("/f", s);
        assert_eq!(e.lines.len(), 1 + s.matches('\n').count());
        assert_eq!(e.save_plan(1).body.as_bytes(), s.as_bytes());
    }
}

#[test]
fn keys_stay_in_ascii_text() {
    let codes = [
        KeyCode::Char('a'),
        KeyCode::Enter,
        KeyCode::Backspace,
        KeyCode::Delete,
        KeyCode::Tab,
        KeyCode::BackTab,
        KeyCode::Left,
        KeyCode::Right,
        KeyCode::Up,
        KeyCode::Down,
        KeyCode::Home,
        KeyCode::End,
        KeyCode::PageUp,
        KeyCode::PageDown,
        KeyCode::Char('z'),
        KeyCode::Char('y'),
        KeyCode::Char('d'),
        KeyCode::Char('k'),
    ];
    let mut e = open("/f", "fn main() {\n\tok\n}\n");
    let mut seed: u64 = 7;
    let mut now: u64 = 0;
    for _ in 0..3000 {
        seed = seed.wrapping_mul(6364136223846793005).wrapping_add(1442695040888963407);
        let code = codes[(seed >> 33) as usize % codes.len()];
        let k = KeyEvent { code, ctrl: seed >> 63 == 1, shift: false, press: true };
        now += seed >> 35;
        assert!(e.accepts(k));
        e.handle_key(k, now);
        assert!(!e.lines.is_empty() && e.cursor.0 < e.lines.len());
        assert!(e.cursor.1 <= e.lines[e.cursor.0].len());
        assert!(e.cursor_between_chars());
    }
}
