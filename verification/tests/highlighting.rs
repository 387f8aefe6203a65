use std::collections::HashSet;

use diskvis::editor::file::FileRead;
use diskvis::editor::syntax::{settle, Region};
use diskvis::editor::Editor;
use diskvis::style::{Color, Style};
use syntect::easy::HighlightLines;
use syntect::highlighting::{FontStyle, ThemeSet};
use syntect::parsing::SyntaxSet;

const SOURCE: &str = "// start\nfn main() {\n\tlet s = \"two\n lines\"; /* and\n more */ s\n}\n";

fn open(path: &str) -> Editor {
    let bytes = SOURCE.as_bytes().to_vec();
    match Editor::open(path.to_string(), FileRead::Read { size: bytes.len() as u64, bytes }) {
        Ok(e) => e,
        Err(e) => panic!("{}", e),
    }
}

fn region(text: &str) -> Region {
    Region {
        r: 1,
        g: 2,
        b: 3,
        bold: true,
        italic: false,
        underline: false,
        text: text.to_string(),
    }
}

#[test]
fn grammars_have_names_of_their_own() {
    let set = SyntaxSet::load_defaults_newlines();
    let names: HashSet<&str> = set.syntaxes().iter().map(|s| s.name.as_str()).collect();
    assert_eq!(names.len(), set.syntaxes().len());
    assert_eq!(set.find_syntax_plain_text().name, "Plain Text");
    assert!(ThemeSet::load_defaults().themes.contains_key("base16-ocean.dark"));
}

#[test]
fn text_has_the_colors_of_its_grammar() {
    let set = SyntaxSet::load_defaults_newlines();
    let themes = ThemeSet::load_defaults();
    let mut kinds = HashSet::new();
    for (path, grammar) in [("/x/a.rs", "Rust"), ("/x/a.py", "Python"), ("/x/a", "Plain Text")] {
        let e = open(path);
        let rows = e.view_lines(20, 200);
        let syntax = set.find_syntax_by_name(grammar).unwrap();
        let mut hl = HighlightLines::new(syntax, &themes.themes["base16-ocean.dark"]);
        for (i, line) in e.lines.iter().enumerate() {
            let fed = format!("{}\n", line);
            let mut want = Vec::new();
            for (s, t) in hl.highlight_line(&fed, &set).unwrap() {
                let t = t.trim_end_matches('\n').replace('\t', "    ");
                let c = s.foreground;
                let mut style = Style::plain().fg(Color::Rgb(c.r, c.g, c.b));
                style.add_modifier.bold = s.font_style.contains(FontStyle::BOLD);
                style.add_modifier.italic = s.font_style.contains(FontStyle::ITALIC);
                style.add_modifier.underlined = s.font_style.contains(FontStyle::UNDERLINE);
                kinds.insert((c.r, c.g, c.b));
                if !t.is_empty() {
                    want.push((t, style));
                }
            }
            // The cursor is in the first row.
            if i > 0 {
                let got: Vec<_> =
                    rows[i].spans[1..].iter().map(|s| (s.content.clone(), s.style)).collect();
                assert_eq!(got, want);
            }
        }
    }
    assert!(kinds.len() > 3);
}

#[test]
fn colors_do_not_depend_on_what_is_seen() {
    let mut e = open("/x/a.rs");
    let all = e.view_lines(20, 200);
    e.scroll_row = 3;
    let part = e.view_lines(2, 200);
    for (a, b) in part.iter().zip(&all[3..5]) {
        let a: Vec<_> = a.spans.iter().map(|s| (s.content.clone(), s.style)).collect();
        let b: Vec<_> = b.spans.iter().map(|s| (s.content.clone(), s.style)).collect();
        assert_eq!(a, b);
    }
}

#[test]
fn line_ends_are_trimmed() {
    let raw = vec![region("a\n"), region("\n"), region("b\nc\n\n")];
    let v = settle("unused", Some(raw));
    let texts: Vec<_> = v.iter().map(|g| g.text.as_str()).collect();
    assert_eq!(texts, vec!["a", "", "b\nc"]);
    assert!(v.iter().all(|g| (g.r, g.g, g.b, g.bold) == (1, 2, 3, true)));
    let plain = settle("line", None);
    assert_eq!(plain.len(), 1);
    assert_eq!(plain[0].text, "line");
    assert_eq!((plain[0].r, plain[0].g, plain[0].b), (220, 220, 220));
}
