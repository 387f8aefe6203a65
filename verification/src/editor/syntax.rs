//! Syntax highlighting.

use vstd::prelude::*;

use syntect::easy::HighlightLines;
use syntect::highlighting::{FontStyle, ThemeSet};
use syntect::parsing::{SyntaxReference, SyntaxSet};

use crate::paths::{extension, extension_of, file_name, file_name_of};
use crate::style::{Color, Modifiers, Style};
use crate::text::{push_char, texts, trim_end_char, without_trailing};

verus! {

#[verifier::external_type_specification]
#[verifier::external_body]
pub struct ExSyntaxSet(syntect::parsing::SyntaxSet);

#[verifier::external_type_specification]
#[verifier::external_body]
pub struct ExSyntaxReference(syntect::parsing::SyntaxReference);

#[verifier::external_type_specification]
#[verifier::external_body]
pub struct ExThemeSet(syntect::highlighting::ThemeSet);

#[verifier::external_type_specification]
#[verifier::external_body]
pub struct ExHighlightLines<'a>(syntect::easy::HighlightLines<'a>);

/// The grammars that come with the highlighter.
pub struct Syntaxes {
    set: SyntaxSet,
}

/// The color themes that come with the highlighter.
pub struct Palette {
    themes: ThemeSet,
}

/// A grammar and its name. It is made by finding it, so that the name is its
/// own.
pub struct Syntax {
    name: String,
    reference: SyntaxReference,
}

impl Syntax {
    /// The name of the grammar.
    pub closed spec fn grammar(self) -> Seq<char> {
        self.name@
    }

    /// The name of the grammar.
    pub fn name(&self) -> (r: String)
        ensures
            r@ == self.grammar(),
    {
        self.name.clone()
    }
}

/// The name of the grammar for files with an extension or of a name.
pub uninterp spec fn grammar_for(token: Seq<char>) -> Option<Seq<char>>;

/// The name of an optional grammar.
pub open spec fn grammar_name(s: Option<Syntax>) -> Option<Seq<char>> {
    match s {
        Some(g) => Some(g.grammar()),
        None => None,
    }
}

/// `SyntaxSet::load_defaults_newlines` of syntect. Nothing is claimed of the
/// set, which is always the same.
#[verifier::external_body]
pub(crate) fn load_syntaxes() -> (r: Syntaxes) {
    Syntaxes { set: SyntaxSet::load_defaults_newlines() }
}

/// `SyntaxSet::find_syntax_by_extension` of syntect, on the default set. The
/// name of the grammar is a function of the extension, named `grammar_for`.
#[verifier::external_body]
fn find_syntax(s: &Syntaxes, token: &str) -> (r: Option<Syntax>)
    ensures
        grammar_name(r) == grammar_for(token@),
{
    s.set.find_syntax_by_extension(token).map(|g| Syntax { name: g.name.clone(), reference: g.clone() })
}

/// `SyntaxSet::find_syntax_plain_text` of syntect, on the default set: the
/// grammar that is called Plain Text.
#[verifier::external_body]
fn plain_syntax(s: &Syntaxes) -> (r: Syntax)
    ensures
        r.grammar() == "Plain Text"@,
{
    let g = s.set.find_syntax_plain_text();
    Syntax { name: g.name.clone(), reference: g.clone() }
}

/// `ThemeSet::load_defaults` of syntect. Nothing is claimed of the set, which
/// is always the same.
#[verifier::external_body]
pub(crate) fn load_palette() -> (r: Palette) {
    Palette { themes: ThemeSet::load_defaults() }
}

/// The first grammar that was found.
pub fn first_found(by_extension: Option<Syntax>, by_name: Option<Syntax>, plain: Syntax) -> (r:
    Syntax)
    ensures
        r == (match by_extension {
            Some(g) => g,
            None => match by_name {
                Some(g) => g,
                None => plain,
            },
        }),
{
    match by_extension {
        Some(g) => g,
        None => match by_name {
            Some(g) => g,
            None => plain,
        },
    }
}

/// The grammar for an optional extension or name.
pub open spec fn grammar_for_opt(token: Option<Seq<char>>) -> Option<Seq<char>> {
    match token {
        Some(t) => grammar_for(t),
        None => None,
    }
}

/// The name of the grammar of a file: by its extension, else by its name, else
/// plain text.
pub open spec fn language_of(path: Seq<char>) -> Seq<char> {
    match grammar_for_opt(extension_of(path)) {
        Some(g) => g,
        None => match grammar_for_opt(file_name_of(path)) {
            Some(g) => g,
            None => "Plain Text"@,
        },
    }
}

/// The grammar of a file.
pub(crate) fn pick_syntax(set: &Syntaxes, path: &str) -> (r: Syntax)
    ensures
        r.grammar() == language_of(path@),
{
    let by_extension = match extension(path) {
        Some(e) => find_syntax(set, &e),
        None => None,
    };
    let by_name = match file_name(path) {
        Some(n) => find_syntax(set, &n),
        None => None,
    };
    first_found(by_extension, by_name, plain_syntax(set))
}

/// A piece of a highlighted line.
pub struct Region {
    pub r: u8,
    pub g: u8,
    pub b: u8,
    pub bold: bool,
    pub italic: bool,
    pub underline: bool,
    pub text: String,
}

/// The mathematical form of a [`Region`].
#[verifier::ext_equal]
pub struct Piece {
    pub r: u8,
    pub g: u8,
    pub b: u8,
    pub bold: bool,
    pub italic: bool,
    pub underline: bool,
    pub text: Seq<char>,
}

impl View for Region {
    type V = Piece;

    open spec fn view(&self) -> Piece {
        Piece {
            r: self.r,
            g: self.g,
            b: self.b,
            bold: self.bold,
            italic: self.italic,
            underline: self.underline,
            text: self.text@,
        }
    }
}

/// The pieces of a list.
pub open spec fn pieces(v: Seq<Region>) -> Seq<Piece> {
    v.map_values(|g: Region| g@)
}

/// The pieces of an optional list.
pub open spec fn pieces_opt(v: Option<Vec<Region>>) -> Option<Seq<Piece>> {
    match v {
        Some(w) => Some(pieces(w@)),
        None => None,
    }
}

/// The text of pieces, put together.
pub open spec fn regions_text(v: Seq<Piece>) -> Seq<char>
    decreases v.len(),
{
    if v.len() == 0 {
        Seq::empty()
    } else {
        regions_text(v.drop_last()) + v.last().text
    }
}

/// The lines that a highlighter has read.
pub uninterp spec fn lines_read(h: HighlightLines<'_>) -> Seq<Seq<char>>;

/// The names of the grammar and the theme that a highlighter was made with.
pub uninterp spec fn made_with(h: HighlightLines<'_>) -> (Seq<char>, Seq<char>);

/// The pieces of a line that follows others, for the names of a grammar and a
/// theme. None where the grammar fails.
pub uninterp spec fn highlighted(
    names: (Seq<char>, Seq<char>),
    before: Seq<Seq<char>>,
    line: Seq<char>,
) -> Option<Seq<Piece>>;

/// `HighlightLines::new` of syntect, with the theme of a name from the default
/// set, which has the one that is asked for: the highlighter has read nothing.
#[verifier::external_body]
fn start_with<'a>(syntax: &Syntax, palette: &'a Palette, name: &str) -> (r: HighlightLines<'a>)
    requires
        name@ == "base16-ocean.dark"@,
    ensures
        lines_read(r) == Seq::<Seq<char>>::empty(),
        made_with(r) == (syntax.grammar(), name@),
{
    HighlightLines::new(&syntax.reference, &palette.themes.themes[name])
}

/// `HighlightLines::highlight_line` of syntect: the pieces of the next line of
/// a file, None where the grammar fails. They are a function of the grammar,
/// the theme, the lines that were read before and the line, named
/// `highlighted`; no two grammars of the default set share a name. Put
/// together, the pieces are the line.
#[verifier::external_body]
fn highlight_next(hl: &mut HighlightLines<'_>, line: &str, set: &Syntaxes) -> (r: Option<
    Vec<Region>,
>)
    ensures
        lines_read(*final(hl)) == lines_read(*old(hl)).push(line@),
        made_with(*final(hl)) == made_with(*old(hl)),
        pieces_opt(r) == highlighted(made_with(*old(hl)), lines_read(*old(hl)), line@),
        r is Some ==> regions_text(pieces(r->0@)) == line@,
{
    let piece = |(s, t): (syntect::highlighting::Style, &str)| Region {
        r: s.foreground.r, g: s.foreground.g, b: s.foreground.b,
        bold: s.font_style.contains(FontStyle::BOLD),
        italic: s.font_style.contains(FontStyle::ITALIC),
        underline: s.font_style.contains(FontStyle::UNDERLINE),
        text: t.to_string(),
    };
    hl.highlight_line(line, &set.set).ok().map(|v| v.into_iter().map(piece).collect())
}

/// The style of a piece.
pub open spec fn region_style(g: Piece) -> Style {
    let colored = Style::plain().fg(Color::Rgb(g.r, g.g, g.b));
    let bold = if g.bold {
        colored.bold()
    } else {
        colored
    };
    let italic = if g.italic {
        bold.add_modifier(Modifiers::just_italic())
    } else {
        bold
    };
    if g.underline {
        italic.add_modifier(Modifiers::just_underlined())
    } else {
        italic
    }
}

/// The style of a piece.
pub fn syn_to_ratatui(g: &Region) -> (r: Style)
    ensures
        r == region_style(g@),
{
    let mut style = Style::plain().fg(Color::Rgb(g.r, g.g, g.b));
    if g.bold {
        style = style.bold();
    }
    if g.italic {
        style = style.add_modifier(Modifiers::just_italic());
    }
    if g.underline {
        style = style.add_modifier(Modifiers::just_underlined());
    }
    style
}

/// Whether pieces make up a line. Of a line that holds a line end nothing is
/// said.
pub open spec fn pieces_of(v: Seq<Piece>, line: Seq<char>) -> bool {
    !line.contains('\n') ==> regions_text(v) == line
}

/// Pieces without the line ends behind them.
pub open spec fn trimmed(raw: Seq<Piece>) -> Seq<Piece> {
    raw.map_values(|g: Piece| Piece { text: without_trailing(g.text, '\n'), ..g })
}

/// The piece that stands for a line that could not be highlighted.
pub open spec fn plain_piece(line: Seq<char>) -> Piece {
    Piece { r: 220, g: 220, b: 220, bold: false, italic: false, underline: false, text: line }
}

/// Lines with their ends.
pub open spec fn ended(lines: Seq<Seq<char>>) -> Seq<Seq<char>> {
    lines.map_values(|l: Seq<char>| l.push('\n'))
}

/// The pieces of line `i` of a file. The highlighter reads the file from its
/// start; a line that it fails on is one plain piece.
pub open spec fn line_pieces(grammar: Seq<char>, lines: Seq<Seq<char>>, i: int) -> Seq<Piece> {
    match highlighted(
        (grammar, "base16-ocean.dark"@),
        ended(lines.take(i)),
        lines[i].push('\n'),
    ) {
        Some(raw) => trimmed(raw),
        None => seq![plain_piece(lines[i])],
    }
}

/// The pieces of the first `n` lines of a file.
pub open spec fn text_pieces(grammar: Seq<char>, lines: Seq<Seq<char>>, n: nat) -> Seq<
    Seq<Piece>,
> {
    Seq::new(n, |i: int| line_pieces(grammar, lines, i))
}

/// The pieces of the lines of a list.
pub open spec fn region_lists(v: Seq<Vec<Region>>) -> Seq<Seq<Piece>> {
    v.map_values(|r: Vec<Region>| pieces(r@))
}

proof fn lemma_nothing_to_trim(s: Seq<char>)
    requires
        !s.contains('\n'),
    ensures
        without_trailing(s, '\n') == s,
{
    if s.len() > 0 {
        assert(s.contains(s[s.len() - 1]));
    }
}

proof fn lemma_trim_none(raw: Seq<Piece>)
    requires
        !regions_text(raw).contains('\n'),
    ensures
        regions_text(trimmed(raw)) == regions_text(raw),
    decreases raw.len(),
{
    if raw.len() > 0 {
        let a = regions_text(raw.drop_last());
        let b = raw.last().text;
        assert forall|i: int| 0 <= i < a.len() implies a[i] != '\n' by {
            assert((a + b)[i] == a[i]);
        }
        assert forall|i: int| 0 <= i < b.len() implies b[i] != '\n' by {
            assert((a + b)[a.len() + i] == b[i]);
        }
        lemma_nothing_to_trim(b);
        assert(trimmed(raw).drop_last() =~= trimmed(raw.drop_last()));
        lemma_trim_none(raw.drop_last());
    }
}

/// Pieces that make up a line and its end make up the line once they are
/// trimmed.
proof fn lemma_trim_line(raw: Seq<Piece>, line: Seq<char>)
    requires
        regions_text(raw) == line.push('\n'),
        !line.contains('\n'),
    ensures
        regions_text(trimmed(raw)) == line,
    decreases raw.len(),
{
    if raw.len() == 0 {
        assert(line.push('\n').len() == 0);
    } else {
        let a = regions_text(raw.drop_last());
        let b = raw.last().text;
        assert(trimmed(raw).drop_last() =~= trimmed(raw.drop_last()));
        assert(trimmed(raw).last().text == without_trailing(b, '\n'));
        if b.len() == 0 {
            assert(a + b =~= a);
            lemma_trim_line(raw.drop_last(), line);
            assert(regions_text(trimmed(raw)) =~= line);
        } else {
            let c = b.drop_last();
            assert((a + b).last() == b.last());
            assert(b.last() == '\n');
            assert((a + b).drop_last() =~= a + c);
            assert(line.push('\n').drop_last() =~= line);
            assert(line =~= a + c);
            assert forall|i: int| 0 <= i < a.len() implies a[i] != '\n' by {
                assert(line[i] == a[i]);
            }
            assert forall|i: int| 0 <= i < c.len() implies c[i] != '\n' by {
                assert(line[a.len() + i] == c[i]);
            }
            lemma_nothing_to_trim(c);
            lemma_trim_none(raw.drop_last());
        }
    }
}

fn trim(raw: &Vec<Region>) -> (r: Vec<Region>)
    ensures
        pieces(r@) == trimmed(pieces(raw@)),
{
    let ghost all = trimmed(pieces(raw@));
    let mut out: Vec<Region> = Vec::new();
    let mut i: usize = 0;
    assert(pieces(out@) =~= all.take(0));
    while i < raw.len()
        invariant
            i <= raw@.len(),
            all == trimmed(pieces(raw@)),
            pieces(out@) == all.take(i as int),
        decreases raw@.len() - i,
    {
        let g = &raw[i];
        let ghost before = pieces(out@);
        let h = Region {
            r: g.r,
            g: g.g,
            b: g.b,
            bold: g.bold,
            italic: g.italic,
            underline: g.underline,
            text: trim_end_char(&g.text, '\n'),
        };
        assert(h@ =~= all[i as int]);
        out.push(h);
        assert(pieces(out@) =~= before.push(h@));
        i = i + 1;
        assert(all.take(i as int) =~= all.take(i - 1).push(h@));
    }
    assert(all.take(i as int) =~= all);
    out
}

/// The piece that stands for a line that could not be highlighted.
pub fn plain_region(line: &str) -> (r: Region)
    ensures
        r@ == plain_piece(line@),
{
    let r = Region {
        r: 220,
        g: 220,
        b: 220,
        bold: false,
        italic: false,
        underline: false,
        text: line.to_owned(),
    };
    assert(r@ =~= plain_piece(line@));
    r
}

/// What is shown of a line, from what the highlighter made of it.
pub fn settle(line: &str, raw: Option<Vec<Region>>) -> (r: Vec<Region>)
    ensures
        pieces(r@) == (match raw {
            Some(v) => trimmed(pieces(v@)),
            None => seq![plain_piece(line@)],
        }),
{
    match raw {
        Some(v) => trim(&v),
        None => {
            let mut v: Vec<Region> = Vec::new();
            v.push(plain_region(line));
            assert(pieces(v@) =~= seq![plain_piece(line@)]);
            v
        },
    }
}

/// The pieces of the first `to` lines. Put together, they are the lines.
pub(crate) fn highlight(
    set: &Syntaxes,
    syntax: &Syntax,
    palette: &Palette,
    lines: &Vec<String>,
    to: usize,
) -> (r: Vec<Vec<Region>>)
    requires
        to <= lines@.len(),
    ensures
        region_lists(r@) == text_pieces(syntax.grammar(), texts(lines@), to as nat),
        forall|i: int|
            0 <= i < to ==> pieces_of(
                #[trigger] line_pieces(syntax.grammar(), texts(lines@), i),
                lines@[i]@,
            ),
{
    let ghost g = syntax.grammar();
    let ghost file = texts(lines@);
    let ghost all = text_pieces(g, file, to as nat);
    let mut hl = start_with(syntax, palette, "base16-ocean.dark");
    let mut out: Vec<Vec<Region>> = Vec::new();
    let mut i: usize = 0;
    assert(ended(file.take(0)) =~= Seq::<Seq<char>>::empty());
    assert(region_lists(out@) =~= all.take(0));
    while i < to
        invariant
            i <= to <= lines@.len(),
            file == texts(lines@),
            all == text_pieces(g, file, to as nat),
            made_with(hl) == (g, "base16-ocean.dark"@),
            lines_read(hl) == ended(file.take(i as int)),
            region_lists(out@) == all.take(i as int),
            forall|j: int|
                0 <= j < i ==> pieces_of(#[trigger] line_pieces(g, file, j), lines@[j]@),
        decreases to - i,
    {
        let ghost text = lines@[i as int]@;
        assert(file[i as int] == text);
        let mut line = lines[i].clone();
        push_char(&mut line, '\n');
        let raw = highlight_next(&mut hl, &line, set);
        proof {
            if raw is Some && !text.contains('\n') {
                lemma_trim_line(pieces(raw->0@), text);
            }
            if raw is None {
                let v = seq![plain_piece(text)];
                assert(v.drop_last() =~= Seq::<Piece>::empty());
                assert(regions_text(v.drop_last()) == Seq::<char>::empty());
                assert(regions_text(v) =~= text);
            }
        }
        let v = settle(&lines[i], raw);
        assert(pieces(v@) == line_pieces(g, file, i as int));
        let ghost before = region_lists(out@);
        out.push(v);
        assert(region_lists(out@) =~= before.push(pieces(v@)));
        assert(ended(file.take(i + 1)) =~= ended(file.take(i as int)).push(text.push('\n')));
        i = i + 1;
        assert(all.take(i as int) =~= all.take(i - 1).push(pieces(v@)));
    }
    assert(all.take(i as int) =~= all);
    out
}

} // verus!
