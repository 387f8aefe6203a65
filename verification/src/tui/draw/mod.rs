//! What is drawn: a list of widgets, and what can be clicked in them.

use vstd::prelude::*;

use crate::layout::Rect;
use crate::style::{line_views, sp, Line, Span, SpanView, Style};
use crate::text::{last_chars, tail_chars};
use crate::tui::{Action, HitRegion};

pub mod body;
pub mod bottom;
pub mod editor;
pub mod newitem;
pub mod panels;
pub mod perms;
pub mod picker;
pub mod screen;
pub mod seen;
pub mod title;

verus! {

/// Something to be drawn.
pub enum Widget {
    /// Blanks.
    Clear { rect: Rect },
    /// A border with a title.
    Block { rect: Rect, title: Span, border: Style },
    /// Lines of text in a style, wrapped or cut off at the right edge. A line
    /// that is marked has a style of its own.
    Para { rect: Rect, lines: Vec<Line>, style: Style, wrap: bool, marked: Option<(usize, Style)> },
    /// The tree as nested blocks.
    Treemap { rect: Rect },
}

/// The mathematical form of a [`Widget`].
#[verifier::ext_equal]
pub enum WidgetView {
    Clear { rect: Rect },
    Block { rect: Rect, title: SpanView, border: Style },
    Para {
        rect: Rect,
        lines: Seq<Seq<SpanView>>,
        style: Style,
        wrap: bool,
        marked: Option<(usize, Style)>,
    },
    Treemap { rect: Rect },
}

impl View for Widget {
    type V = WidgetView;

    open spec fn view(&self) -> WidgetView {
        match *self {
            Widget::Clear { rect } => WidgetView::Clear { rect },
            Widget::Block { rect, title, border } => WidgetView::Block {
                rect,
                title: title@,
                border,
            },
            Widget::Para { rect, lines, style, wrap, marked } => WidgetView::Para {
                rect,
                lines: line_views(lines@),
                style,
                wrap,
                marked,
            },
            Widget::Treemap { rect } => WidgetView::Treemap { rect },
        }
    }
}

pub open spec fn widget_views(v: Seq<Widget>) -> Seq<WidgetView> {
    v.map_values(|w: Widget| w@)
}

/// Widgets, and what can be clicked in them.
pub struct Canvas {
    pub widgets: Vec<Widget>,
    pub hits: Vec<HitRegion>,
}

/// The mathematical form of a [`Canvas`].
#[verifier::ext_equal]
pub struct Picture {
    pub widgets: Seq<WidgetView>,
    pub hits: Seq<HitRegion>,
}

impl View for Canvas {
    type V = Picture;

    open spec fn view(&self) -> Picture {
        Picture { widgets: widget_views(self.widgets@), hits: self.hits@ }
    }
}

impl Picture {
    /// Nothing.
    pub open spec fn empty() -> Picture {
        Picture { widgets: Seq::empty(), hits: Seq::empty() }
    }

    /// With one more widget.
    pub open spec fn drawing(self, w: WidgetView) -> Picture {
        Picture { widgets: self.widgets.push(w), ..self }
    }

    /// With one more region that can be clicked.
    pub open spec fn clickable(self, rect: Rect, action: Action) -> Picture {
        Picture { hits: self.hits.push(HitRegion { rect, action }), ..self }
    }

    /// With a paragraph.
    pub open spec fn para(self, rect: Rect, lines: Seq<Seq<SpanView>>, style: Style, wrap: bool) -> Picture {
        self.drawing(WidgetView::Para { rect, lines, style, wrap, marked: None })
    }

    /// With a line of text.
    pub open spec fn line(self, rect: Rect, line: Seq<SpanView>) -> Picture {
        self.para(rect, seq![line], Style::plain(), false)
    }

    /// With a line of text in one style.
    pub open spec fn label(self, rect: Rect, text: Seq<char>, style: Style) -> Picture {
        self.line(rect, seq![sp(text, style)])
    }

    /// With an area cleared and a border around it.
    pub open spec fn boxed(self, rect: Rect, title: SpanView, border: Style) -> Picture {
        self.drawing(WidgetView::Clear { rect }).drawing(WidgetView::Block { rect, title, border })
    }
}

/// A text, cut to a width: what does not fit is left out at the start.
pub open spec fn tail_cut(s: Seq<char>, width: nat) -> Seq<char> {
    if s.len() > width {
        "…"@ + last_chars(
            s,
            if width == 0 {
                0
            } else {
                (width - 1) as nat
            },
        )
    } else {
        s
    }
}

/// A text, cut to a width: what does not fit is left out at the start.
pub fn cut_tail(s: &str, width: usize) -> (r: String)
    ensures
        r@ == tail_cut(s@, width as nat),
{
    if s.unicode_len() > width {
        let keep: usize = if width == 0 {
            0
        } else {
            width - 1
        };
        let mut r = "…".to_owned();
        r.append(&tail_chars(s, keep));
        r
    } else {
        s.to_owned()
    }
}

/// The number of columns that a label takes.
pub open spec fn width_of(s: Seq<char>) -> u16 {
    (s.len() % 65536) as u16
}

/// The number of columns that a label takes.
pub fn label_width(s: &str) -> (r: u16)
    ensures
        r == width_of(s@),
{
    (s.unicode_len() % 65536) as u16
}

/// Appends a line.
pub(crate) fn push_line(v: &mut Vec<Line>, line: Line)
    ensures
        line_views(final(v)@) == line_views(old(v)@).push(line@),
{
    v.push(line);
    assert(line_views(v@) =~= line_views(old(v)@).push(line@));
}

/// A list of no lines.
pub(crate) fn no_lines() -> (r: Vec<Line>)
    ensures
        line_views(r@) == Seq::<Seq<SpanView>>::empty(),
{
    let r: Vec<Line> = Vec::new();
    assert(line_views(r@) =~= Seq::<Seq<SpanView>>::empty());
    r
}

impl Canvas {
    pub fn new() -> (r: Canvas)
        ensures
            r@ == Picture::empty(),
    {
        let r = Canvas { widgets: Vec::new(), hits: Vec::new() };
        assert(r@ =~= Picture::empty());
        r
    }

    pub fn add(&mut self, w: Widget)
        ensures
            final(self)@ == old(self)@.drawing(w@),
    {
        self.widgets.push(w);
        assert(self@ =~= old(self)@.drawing(w@));
    }

    pub fn hit(&mut self, rect: Rect, action: Action)
        ensures
            final(self)@ == old(self)@.clickable(rect, action),
    {
        self.hits.push(HitRegion { rect, action });
        assert(self@ =~= old(self)@.clickable(rect, action));
    }

    pub fn para(&mut self, rect: Rect, lines: Vec<Line>, style: Style, wrap: bool)
        ensures
            final(self)@ == old(self)@.para(rect, line_views(lines@), style, wrap),
    {
        self.add(Widget::Para { rect, lines, style, wrap, marked: None });
    }

    pub fn line(&mut self, rect: Rect, line: Line)
        ensures
            final(self)@ == old(self)@.line(rect, line@),
    {
        let mut lines = no_lines();
        push_line(&mut lines, line);
        assert(line_views(lines@) =~= seq![line@]);
        self.para(rect, lines, Style::plain(), false);
    }

    pub fn label(&mut self, rect: Rect, text: &str, style: Style)
        ensures
            final(self)@ == old(self)@.label(rect, text@, style),
    {
        self.line(rect, Line::of(text, style));
    }

    pub fn boxed(&mut self, rect: Rect, title: &str, title_style: Style, border: Style)
        ensures
            final(self)@ == old(self)@.boxed(rect, sp(title@, title_style), border),
    {
        self.add(Widget::Clear { rect });
        self.add(
            Widget::Block {
                rect,
                title: Span { content: title.to_owned(), style: title_style },
                border,
            },
        );
    }
}

} // verus!
