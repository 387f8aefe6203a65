//! What colors say.

use vstd::prelude::*;

use crate::config::Theme;
use crate::display::treemap::color_for;
use crate::display::{dim_style, dir_style, file_style, name_style, printed, size_style};
use crate::figures::{bit_set, number_read};
use crate::style::{ansi_text, color_code, Color, SpanView, Style};
use crate::walker::Node;

verus! {

/// Whether two sizes are both below a megabyte, both between that and a hundred megabytes,
/// or both above.
pub open spec fn alike_in_size(a: u64, b: u64) -> bool {
    &&& a < 1024 * 1024 <==> b < 1024 * 1024
    &&& a <= 100 * 1024 * 1024 <==> b <= 100 * 1024 * 1024
}

/// Sizes have the same color where they are alike, and only there; a theme without colors
/// tells none apart.
pub proof fn colors_tell_sizes_apart(theme: Theme, a: u64, b: u64)
    ensures
        theme == Theme::Monochrome ==> size_style(theme, a) == Style::plain(),
        theme != Theme::Monochrome ==> (size_style(theme, a) == size_style(theme, b)
            <==> alike_in_size(a, b)),
        a < 1024 * 1024 ==> size_style(Theme::Default, a).fg == Some(Color::Green),
        a > 100 * 1024 * 1024 ==> size_style(Theme::Default, a).fg == Some(Color::Red),
        a > 100 * 1024 * 1024 ==> size_style(Theme::HighContrast, a).fg == Some(Color::LightRed),
{
}

/// Directories are told from files in every theme, and a theme without colors has none.
pub proof fn themes_tell_directories_from_files(theme: Theme)
    ensures
        dir_style(theme) != file_style(theme),
        dir_style(theme).add_modifier.bold,
        !file_style(theme).add_modifier.bold,
        theme == Theme::Monochrome ==> dir_style(theme).fg is None && file_style(theme).fg is None
            && dim_style(theme) == Style::plain(),
        theme != Theme::Monochrome ==> dim_style(theme).add_modifier.dim,
{
}

/// The number of a color that a terminal knows: eight colors in a row, and the bright ones
/// sixty further.
pub open spec fn color_number(c: Color) -> int {
    match c {
        Color::Black => 30,
        Color::Red => 31,
        Color::Green => 32,
        Color::Yellow => 33,
        Color::Blue => 34,
        Color::Magenta => 35,
        Color::Cyan => 36,
        Color::Gray => 37,
        Color::DarkGray => 60int + 30,
        Color::LightRed => 60int + 31,
        Color::LightGreen => 60int + 32,
        Color::LightYellow => 60int + 33,
        Color::LightBlue => 60int + 34,
        Color::LightMagenta => 60int + 35,
        Color::LightCyan => 60int + 36,
        Color::White => 60int + 37,
        Color::Reset | Color::Rgb(_, _, _) => 39,
    }
}

/// A color is written as its number, and colors that are written alike are the same, but
/// for those that a terminal has no number for.
pub proof fn colors_are_numbered(c: Color, d: Color)
    ensures
        number_read(color_code(c), 10) == color_number(c),
        color_code(c) == color_code(d) && color_number(c) != 39 ==> c == d,
{
    lemma_code(c);
    lemma_code(d);
}

proof fn lemma_code(c: Color)
    ensures
        number_read(color_code(c), 10) == color_number(c),
{
    reveal_with_fuel(number_read, 3);
    reveal_strlit("30");
    reveal_strlit("31");
    reveal_strlit("32");
    reveal_strlit("33");
    reveal_strlit("34");
    reveal_strlit("35");
    reveal_strlit("36");
    reveal_strlit("37");
    reveal_strlit("39");
    reveal_strlit("90");
    reveal_strlit("91");
    reveal_strlit("92");
    reveal_strlit("93");
    reveal_strlit("94");
    reveal_strlit("95");
    reveal_strlit("96");
    reveal_strlit("97");
    let s = color_code(c);
    assert(s.len() == 2);
    lemma_two_digits(s);
}

proof fn lemma_two_digits(s: Seq<char>)
    requires
        s.len() == 2,
    ensures
        number_read(s, 10) == (s[0] as int - 48) * 10 + (s[1] as int - 48),
{
    let d = s.drop_last();
    assert(d.drop_last() =~= Seq::<char>::empty());
    assert(number_read(d.drop_last(), 10) == 0);
    assert(number_read(d, 10) == d.last() as int - 48);
}

/// A style without color and attributes needs no escape sequence; any other starts with
/// one.
pub proof fn plain_text_is_not_escaped(style: Style)
    ensures
        ansi_text(style).len() == 0 <==> style.fg is None && !style.add_modifier.bold
            && !style.add_modifier.dim,
        ansi_text(style).len() > 0 ==> ansi_text(style)[0] == '\x1b' && ansi_text(style)[1] == '['
            && ansi_text(style).last() == 'm',
{
    reveal_strlit("\x1b[1m");
    reveal_strlit("\x1b[2m");
    reveal_strlit("\x1b[");
}

/// The blocks of files have the same color in a treemap where their sizes are alike, and
/// only there; all directories have one of their own.
pub proof fn block_colors_tell_sizes_apart(a: u64, b: u64)
    ensures
        color_for(a, false) == color_for(b, false) <==> alike_in_size(a, b),
        color_for(a, true) == color_for(b, true),
        color_for(a, true) != color_for(b, false),
{
}

/// A name stands out where everyone may write to the entry, or where it runs as its owner
/// or its group; else directories and files look as their theme says.
pub proof fn unusual_permissions_stand_out(n: Node, theme: Theme)
    ensures
        ({
            let s = name_style(n, theme);
            let unusual = n.mode matches Some(m) && (bit_set(m, 1) || bit_set(m, 10) || bit_set(
                m,
                11,
            ));
            &&& unusual ==> s.fg == Some(Color::Rgb(255, 140, 0)) && s.add_modifier.bold
            &&& !unusual && n.is_dir ==> s == dir_style(theme)
            &&& !unusual && !n.is_dir ==> s == file_style(theme)
        }),
{
    if let Some(m) = n.mode {
        assert((m & 0o002 != 0) == ((m >> 1u32) & 1 == 1)) by (bit_vector);
        assert((m & 0o4000 != 0) == ((m >> 11u32) & 1 == 1)) by (bit_vector);
        assert((m & 0o2000 != 0) == ((m >> 10u32) & 1 == 1)) by (bit_vector);
    }
}

/// With colors, each piece of a line is printed behind the escape sequences of its style,
/// and what was switched on is switched off again behind it.
pub proof fn colored_pieces_are_printed_in_a_row(line: Seq<SpanView>, s: SpanView)
    ensures
        printed(Seq::empty(), true).len() == 0,
        printed(line.push(s), true) == printed(line, true) + ansi_text(s.style) + s.content
            + "\x1b[0m"@,
{
    assert(line.push(s).drop_last() =~= line);
    assert(printed(line.push(s), true) =~= printed(line, true) + ansi_text(s.style) + s.content
        + "\x1b[0m"@);
}

} // verus!
