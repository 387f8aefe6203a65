//! Colors, text attributes and styled text.

use vstd::prelude::*;

verus! {

/// A terminal color.
#[derive(Clone, Copy, Debug, PartialEq, Eq, Structural)]
pub enum Color {
    Reset,
    Black,
    Red,
    Green,
    Yellow,
    Blue,
    Magenta,
    Cyan,
    Gray,
    DarkGray,
    LightRed,
    LightGreen,
    LightYellow,
    LightBlue,
    LightMagenta,
    LightCyan,
    White,
    Rgb(u8, u8, u8),
}

/// A set of text attributes.
#[derive(Clone, Copy, Debug, PartialEq, Eq, Structural)]
pub struct Modifiers {
    pub bold: bool,
    pub dim: bool,
    pub italic: bool,
    pub underlined: bool,
}

impl Modifiers {
    #[verifier::allow_in_spec]
    pub fn none() -> Modifiers
        returns
            (Modifiers { bold: false, dim: false, italic: false, underlined: false }),
    {
        Modifiers { bold: false, dim: false, italic: false, underlined: false }
    }

    #[verifier::allow_in_spec]
    pub fn just_bold() -> Modifiers
        returns
            (Modifiers { bold: true, dim: false, italic: false, underlined: false }),
    {
        Modifiers { bold: true, dim: false, italic: false, underlined: false }
    }

    #[verifier::allow_in_spec]
    pub fn just_dim() -> Modifiers
        returns
            (Modifiers { bold: false, dim: true, italic: false, underlined: false }),
    {
        Modifiers { bold: false, dim: true, italic: false, underlined: false }
    }

    #[verifier::allow_in_spec]
    pub fn just_italic() -> Modifiers
        returns
            (Modifiers { bold: false, dim: false, italic: true, underlined: false }),
    {
        Modifiers { bold: false, dim: false, italic: true, underlined: false }
    }

    #[verifier::allow_in_spec]
    pub fn just_underlined() -> Modifiers
        returns
            (Modifiers { bold: false, dim: false, italic: false, underlined: true }),
    {
        Modifiers { bold: false, dim: false, italic: false, underlined: true }
    }

    /// The attributes of `self` and those of `other`.
    #[verifier::allow_in_spec]
    pub fn with(self, other: Modifiers) -> Modifiers
        returns
            (Modifiers {
                bold: self.bold || other.bold,
                dim: self.dim || other.dim,
                italic: self.italic || other.italic,
                underlined: self.underlined || other.underlined,
            }),
    {
        Modifiers {
            bold: self.bold || other.bold,
            dim: self.dim || other.dim,
            italic: self.italic || other.italic,
            underlined: self.underlined || other.underlined,
        }
    }

    /// The attributes of `self` that are not in `other`.
    #[verifier::allow_in_spec]
    pub fn without(self, other: Modifiers) -> Modifiers
        returns
            (Modifiers {
                bold: self.bold && !other.bold,
                dim: self.dim && !other.dim,
                italic: self.italic && !other.italic,
                underlined: self.underlined && !other.underlined,
            }),
    {
        Modifiers {
            bold: self.bold && !other.bold,
            dim: self.dim && !other.dim,
            italic: self.italic && !other.italic,
            underlined: self.underlined && !other.underlined,
        }
    }
}

/// How text is drawn: colors where they are set, attributes that are switched
/// on and attributes that are switched off.
#[derive(Clone, Copy, Debug, PartialEq, Eq, Structural)]
pub struct Style {
    pub fg: Option<Color>,
    pub bg: Option<Color>,
    pub add_modifier: Modifiers,
    pub sub_modifier: Modifiers,
}

impl Style {
    /// The style that changes nothing.
    #[verifier::allow_in_spec]
    pub fn plain() -> Style
        returns
            (Style {
                fg: None,
                bg: None,
                add_modifier: Modifiers::none(),
                sub_modifier: Modifiers::none(),
            }),
    {
        Style {
            fg: None,
            bg: None,
            add_modifier: Modifiers::none(),
            sub_modifier: Modifiers::none(),
        }
    }

    #[verifier::allow_in_spec]
    pub fn fg(self, color: Color) -> Style
        returns
            (Style { fg: Some(color), ..self }),
    {
        Style { fg: Some(color), ..self }
    }

    #[verifier::allow_in_spec]
    pub fn bg(self, color: Color) -> Style
        returns
            (Style { bg: Some(color), ..self }),
    {
        Style { bg: Some(color), ..self }
    }

    /// Switches attributes on.
    #[verifier::allow_in_spec]
    pub fn add_modifier(self, m: Modifiers) -> Style
        returns
            (Style {
                add_modifier: self.add_modifier.with(m),
                sub_modifier: self.sub_modifier.without(m),
                ..self
            }),
    {
        Style {
            add_modifier: self.add_modifier.with(m),
            sub_modifier: self.sub_modifier.without(m),
            ..self
        }
    }

    /// Switches attributes off.
    #[verifier::allow_in_spec]
    pub fn remove_modifier(self, m: Modifiers) -> Style
        returns
            (Style {
                add_modifier: self.add_modifier.without(m),
                sub_modifier: self.sub_modifier.with(m),
                ..self
            }),
    {
        Style {
            add_modifier: self.add_modifier.without(m),
            sub_modifier: self.sub_modifier.with(m),
            ..self
        }
    }

    /// Bold text on top of `self`.
    #[verifier::allow_in_spec]
    pub fn bold(self) -> Style
        returns
            self.add_modifier(Modifiers::just_bold()),
    {
        self.add_modifier(Modifiers::just_bold())
    }

    /// Dimmed text on top of `self`.
    #[verifier::allow_in_spec]
    pub fn dim(self) -> Style
        returns
            self.add_modifier(Modifiers::just_dim()),
    {
        self.add_modifier(Modifiers::just_dim())
    }
}

/// The foreground of `style`, or `default` where it sets none.
#[verifier::allow_in_spec]
pub fn fg_or(style: Style, default: Color) -> Color
    returns
        (match style.fg {
            Some(c) => c,
            None => default,
        }),
{
    match style.fg {
        Some(c) => c,
        None => default,
    }
}

/// A piece of text in one style.
pub struct Span {
    pub content: String,
    pub style: Style,
}

/// The mathematical form of a [`Span`].
pub struct SpanView {
    pub content: Seq<char>,
    pub style: Style,
}

impl View for Span {
    type V = SpanView;

    open spec fn view(&self) -> SpanView {
        SpanView { content: self.content@, style: self.style }
    }
}

/// A piece of text in one style.
pub open spec fn sp(content: Seq<char>, style: Style) -> SpanView {
    SpanView { content, style }
}

/// The pieces of a list.
pub open spec fn span_views(v: Seq<Span>) -> Seq<SpanView> {
    v.map_values(|s: Span| s@)
}

/// A line of styled text.
pub struct Line {
    pub spans: Vec<Span>,
}

impl View for Line {
    type V = Seq<SpanView>;

    open spec fn view(&self) -> Seq<SpanView> {
        span_views(self.spans@)
    }
}

/// The lines of a list.
pub open spec fn line_views(v: Seq<Line>) -> Seq<Seq<SpanView>> {
    v.map_values(|l: Line| l@)
}

/// The characters of a line, without their styles.
pub open spec fn line_text(line: Seq<SpanView>) -> Seq<char>
    decreases line.len(),
{
    if line.len() == 0 {
        Seq::empty()
    } else {
        line_text(line.drop_last()) + line.last().content
    }
}

/// The one-piece line.
pub open spec fn one(content: Seq<char>, style: Style) -> Seq<SpanView> {
    seq![sp(content, style)]
}

impl Line {
    /// The empty line.
    pub fn new() -> (r: Line)
        ensures
            r@ == Seq::<SpanView>::empty(),
    {
        let r = Line { spans: Vec::new() };
        assert(r@ =~= Seq::<SpanView>::empty());
        r
    }

    /// Appends a piece.
    pub fn push(&mut self, content: String, style: Style)
        ensures
            final(self)@ == old(self)@.push(sp(content@, style)),
    {
        self.spans.push(Span { content, style });
        assert(self@ =~= old(self)@.push(sp(content@, style)));
    }

    /// Appends a copy of `content`.
    pub fn push_str(&mut self, content: &str, style: Style)
        ensures
            final(self)@ == old(self)@.push(sp(content@, style)),
    {
        self.push(content.to_owned(), style);
    }

    /// Appends a styled piece.
    pub fn push_span(&mut self, span: Span)
        ensures
            final(self)@ == old(self)@.push(span@),
    {
        self.spans.push(span);
        assert(self@ =~= old(self)@.push(span@));
    }

    /// The line of one piece.
    pub fn of(content: &str, style: Style) -> (r: Line)
        ensures
            r@ == one(content@, style),
    {
        let mut r = Line::new();
        r.push_str(content, style);
        assert(r@ =~= one(content@, style));
        r
    }
}

impl Span {
    /// A copy.
    pub fn copy(&self) -> (r: Span)
        ensures
            r == *self,
    {
        Span { content: self.content.clone(), style: self.style }
    }
}

/// The escape sequence of a color, between `ESC [` and `m`.
pub open spec fn color_code(c: Color) -> Seq<char> {
    match c {
        Color::Black => "30"@,
        Color::Red => "31"@,
        Color::Green => "32"@,
        Color::Yellow => "33"@,
        Color::Blue => "34"@,
        Color::Magenta => "35"@,
        Color::Cyan => "36"@,
        Color::Gray => "37"@,
        Color::DarkGray => "90"@,
        Color::LightRed => "91"@,
        Color::LightGreen => "92"@,
        Color::LightYellow => "93"@,
        Color::LightBlue => "94"@,
        Color::LightMagenta => "95"@,
        Color::LightCyan => "96"@,
        Color::White => "97"@,
        Color::Reset => "39"@,
        Color::Rgb(_, _, _) => "39"@,
    }
}

/// The escape sequences that switch a terminal to `style`: bold, dim and the
/// foreground color, in this order. Other attributes have none.
pub open spec fn ansi_text(style: Style) -> Seq<char> {
    let bold = if style.add_modifier.bold {
        "\x1b[1m"@
    } else {
        Seq::empty()
    };
    let dim = if style.add_modifier.dim {
        "\x1b[2m"@
    } else {
        Seq::empty()
    };
    let fg = match style.fg {
        Some(c) => "\x1b["@ + color_code(c) + seq!['m'],
        None => Seq::empty(),
    };
    bold + dim + fg
}

/// The escape sequences that switch a terminal to `style`.
pub fn style_to_ansi(style: Style) -> (r: String)
    ensures
        r@ == ansi_text(style),
{
    let mut s = String::new();
    if style.add_modifier.bold {
        s.append("\x1b[1m");
    }
    if style.add_modifier.dim {
        s.append("\x1b[2m");
    }
    if let Some(c) = style.fg {
        let code: &str = match c {
            Color::Black => "30",
            Color::Red => "31",
            Color::Green => "32",
            Color::Yellow => "33",
            Color::Blue => "34",
            Color::Magenta => "35",
            Color::Cyan => "36",
            Color::Gray => "37",
            Color::DarkGray => "90",
            Color::LightRed => "91",
            Color::LightGreen => "92",
            Color::LightYellow => "93",
            Color::LightBlue => "94",
            Color::LightMagenta => "95",
            Color::LightCyan => "96",
            Color::White => "97",
            _ => "39",
        };
        s.append("\x1b[");
        s.append(code);
        crate::text::push_char(&mut s, 'm');
    }
    assert(s@ =~= ansi_text(style));
    s
}

} // verus!
