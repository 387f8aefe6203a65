//! The text as it is shown: line numbers, highlighted text, the cursor.

use vstd::prelude::*;

use crate::editor::columns::{column_after, column_of, column_step, columns_add, display_col_of};
use crate::editor::syntax::{
    highlight, line_pieces, pieces, pieces_of, region_lists, region_style, regions_text,
    syn_to_ratatui, text_pieces, Piece, Region,
};
use crate::editor::{min_nat, minus_nat, Editor, EditorView};
use crate::style::{
    line_text, line_views, sp, span_views, Color, Line, Span, SpanView, Style,
};
use crate::text::{
    chars_of, decimal_text, number, pad_start, padded_start, push_char, repeat_char, repeated,
    text_between,
};

verus! {

/// What is seen of a character that stands in column `col`, through a window
/// of the columns from `start` up to `end`.
pub open spec fn seen_char(c: char, col: nat, start: nat, end: nat) -> Seq<char> {
    let next = column_step(col, c);
    if next <= start || col >= end {
        Seq::empty()
    } else if c == '\t' {
        repeated(' ', min_nat((next - col) as nat, (end - col) as nat))
    } else {
        seq![c]
    }
}

/// What is seen of a text that starts in column `from`.
pub open spec fn seen(s: Seq<char>, from: nat, start: nat, end: nat) -> Seq<char>
    decreases s.len(),
{
    if s.len() == 0 {
        Seq::empty()
    } else {
        seen(s.drop_last(), from, start, end) + seen_char(
            s.last(),
            column_after(from, s.drop_last()),
            start,
            end,
        )
    }
}

/// What is seen of the pieces of a line, each in its style.
pub open spec fn seen_spans(v: Seq<Piece>, start: nat, end: nat) -> Seq<SpanView>
    decreases v.len(),
{
    if v.len() == 0 {
        Seq::empty()
    } else {
        let before = seen_spans(v.drop_last(), start, end);
        let s = seen(
            v.last().text,
            column_after(0, regions_text(v.drop_last())),
            start,
            end,
        );
        if s.len() == 0 {
            before
        } else {
            before.push(sp(s, region_style(v.last())))
        }
    }
}

/// The background of the line with the cursor.
#[verifier::allow_in_spec]
pub fn cursor_bg() -> Color
    returns
        Color::Rgb(30, 30, 45),
{
    Color::Rgb(30, 30, 45)
}

/// The style of the cursor.
#[verifier::allow_in_spec]
pub fn cursor_style() -> Style
    returns
        Style::plain().fg(Color::Rgb(255, 200, 0)).bg(cursor_bg()).bold(),
{
    Style::plain().fg(Color::Rgb(255, 200, 0)).bg(cursor_bg()).bold()
}

/// The style of a line number.
#[verifier::allow_in_spec]
pub fn number_style(current: bool) -> Style
    returns
        (if current {
            Style::plain().fg(Color::Yellow).bold()
        } else {
            Style::plain().fg(Color::DarkGray)
        }),
{
    if current {
        Style::plain().fg(Color::Yellow).bold()
    } else {
        Style::plain().fg(Color::DarkGray)
    }
}

/// Pieces of text on the background of the line with the cursor.
pub open spec fn tinted(spans: Seq<SpanView>) -> Seq<SpanView> {
    spans.map_values(|s: SpanView| sp(s.content, s.style.bg(cursor_bg())))
}

/// A piece, unless it is empty.
pub open spec fn piece(content: Seq<char>, style: Style) -> Seq<SpanView> {
    if content.len() == 0 {
        Seq::empty()
    } else {
        seq![sp(content, style)]
    }
}

/// The cursor as a piece of text.
pub open spec fn cursor_block() -> SpanView {
    sp("█"@, cursor_style())
}

/// Pieces of text with the cursor in place of the character at `at`; behind
/// the end there are blanks before it.
pub open spec fn with_cursor(spans: Seq<SpanView>, at: nat) -> Seq<SpanView>
    decreases spans.len(),
{
    if spans.len() == 0 {
        piece(repeated(' ', at), Style::plain().bg(cursor_bg())).push(cursor_block())
    } else {
        let s = spans[0];
        let style = s.style.bg(cursor_bg());
        let n = s.content.len();
        if at < n {
            piece(s.content.take(at as int), style).push(cursor_block()) + piece(
                s.content.skip(at as int + 1),
                style,
            ) + tinted(spans.skip(1))
        } else {
            piece(s.content, style) + with_cursor(spans.skip(1), (at - n) as nat)
        }
    }
}

/// The number of a row.
pub open spec fn row_number(v: EditorView, row: nat) -> SpanView {
    sp(
        padded_start(decimal_text(row + 1), (v.gutter() - 2) as nat) + "  "@,
        number_style(row == v.row),
    )
}

/// The columns that are left for text.
pub open spec fn body_width(v: EditorView, width: u16) -> nat {
    minus_nat(width as nat, v.gutter())
}

/// The text of a row and, where the cursor is, blanks to the right edge.
pub open spec fn row_body(v: EditorView, regions: Seq<Piece>, row: nat, width: u16) -> Seq<
    SpanView,
> {
    let w = body_width(v, width);
    let text = seen_spans(regions, v.scroll_col, v.scroll_col + w);
    let used = minus_nat(column_after(0, regions_text(regions)), v.scroll_col);
    if row == v.row && used < w {
        text.push(sp(repeated(' ', (w - used) as nat), Style::plain().bg(cursor_bg())))
    } else {
        text
    }
}

/// Where the cursor is seen.
pub open spec fn cursor_column(v: EditorView, width: u16) -> nat {
    min_nat(
        minus_nat(column_of(v.line(), v.col), v.scroll_col),
        minus_nat(body_width(v, width), 1),
    )
}

/// A row as it is shown. Behind the end of the text rows are empty.
pub open spec fn shown_row(v: EditorView, regions: Seq<Seq<Piece>>, row: nat, width: u16) -> Seq<
    SpanView,
> {
    if row >= v.lines.len() {
        Seq::empty()
    } else {
        let body = row_body(v, regions[row as int], row, width);
        seq![row_number(v, row)] + (if row == v.row {
            with_cursor(body, cursor_column(v, width))
        } else {
            body
        })
    }
}

/// All rows on a screen of `height` rows and `width` columns.
pub open spec fn shown_rows(
    v: EditorView,
    regions: Seq<Seq<Piece>>,
    height: u16,
    width: u16,
) -> Seq<Seq<SpanView>> {
    if v.lines.len() == 0 {
        Seq::empty()
    } else {
        Seq::new(height as nat, |i: int| shown_row(v, regions, (v.scroll_row + i) as nat, width))
    }
}

/// The number of lines that have to be highlighted.
pub open spec fn rows_needed(v: EditorView, height: u16) -> nat {
    min_nat(v.scroll_row + height as nat, v.lines.len())
}

/// Nothing is seen behind the window.
proof fn lemma_hidden_rest(s: Seq<char>, k: int, from: nat, start: nat, end: nat)
    requires
        0 <= k <= s.len(),
        column_after(from, s.take(k)) >= end,
    ensures
        seen(s, from, start, end) == seen(s.take(k), from, start, end),
        column_after(from, s) >= end,
    decreases s.len(),
{
    if k == s.len() {
        assert(s.take(k) =~= s);
    } else {
        assert(s.drop_last().take(k) =~= s.take(k));
        lemma_hidden_rest(s.drop_last(), k, from, start, end);
        assert(seen(s, from, start, end) =~= seen(s.drop_last(), from, start, end));
    }
}

/// No piece is seen behind the window.
proof fn lemma_hidden_spans(v: Seq<Piece>, k: int, start: nat, end: nat)
    requires
        0 <= k <= v.len(),
        column_after(0, regions_text(v.take(k))) >= end,
    ensures
        seen_spans(v, start, end) == seen_spans(v.take(k), start, end),
        column_after(0, regions_text(v)) >= end,
    decreases v.len(),
{
    if k == v.len() {
        assert(v.take(k) =~= v);
    } else {
        let d = v.drop_last();
        assert(d.take(k) =~= v.take(k));
        lemma_hidden_spans(d, k, start, end);
        let from = column_after(0, regions_text(d));
        let t = v.last().text;
        assert(t.take(0) =~= Seq::<char>::empty());
        lemma_hidden_rest(t, 0, from, start, end);
        assert(seen(t, from, start, end) == Seq::<char>::empty());
        columns_add(0, regions_text(d), t);
    }
}

/// What is seen of a text that starts in column `from`, and the column behind
/// it; not further than the window.
fn visible_part(text: &str, from: u128, start: u128, end: u128) -> (r: (String, u128))
    requires
        from < end,
        end <= 0x4_0000_0000_0000_0000,
    ensures
        r.0@ == seen(text@, from as nat, start as nat, end as nat),
        r.1 == column_after(from as nat, text@) || (r.1 >= end && column_after(from as nat, text@)
            >= end),
        r.1 <= end + 4,
{
    let chars = chars_of(text);
    let mut buf = String::new();
    let mut col: u128 = from;
    let mut i: usize = 0;
    assert(text@.take(0) =~= Seq::<char>::empty());
    assert(buf@ =~= Seq::<char>::empty());
    while i < chars.len() && col < end
        invariant
            i <= chars@.len(),
            chars@ == text@,
            end <= 0x4_0000_0000_0000_0000,
            col <= end + 4,
            col == column_after(from as nat, text@.take(i as int)),
            buf@ == seen(text@.take(i as int), from as nat, start as nat, end as nat),
        decreases chars@.len() - i,
    {
        let c = chars[i];
        let ghost t = text@.take(i + 1);
        assert(t.drop_last() =~= text@.take(i as int));
        assert(t.last() == c);
        let next: u128 = if c == '\t' {
            col + (4 - col % 4)
        } else {
            col + 1
        };
        if next > start {
            if c == '\t' {
                let n: u128 = if next - col <= end - col {
                    next - col
                } else {
                    end - col
                };
                buf.append(&repeat_char(' ', n as usize));
            } else {
                let ghost before = buf@;
                push_char(&mut buf, c);
                assert(buf@ =~= before + seq![c]);
            }
        } else {
            assert(buf@ =~= buf@ + Seq::<char>::empty());
        }
        col = next;
        i = i + 1;
    }
    proof {
        if i < chars@.len() {
            lemma_hidden_rest(text@, i as int, from as nat, start as nat, end as nat);
        } else {
            assert(text@.take(i as int) =~= text@);
        }
    }
    (buf, col)
}

/// Appends what is seen of the pieces of a line, and says in which column the
/// text ends; not further than the window.
fn push_visible(line: &mut Line, regions: &Vec<Region>, start: u128, end: u128) -> (r: u128)
    requires
        end <= 0x4_0000_0000_0000_0000,
    ensures
        final(line)@ == old(line)@ + seen_spans(pieces(regions@), start as nat, end as nat),
        r == column_after(0, regions_text(pieces(regions@))) || (r >= end && column_after(
            0,
            regions_text(pieces(regions@)),
        ) >= end),
{
    let ghost first = line@;
    let ghost all = pieces(regions@);
    let mut col: u128 = 0;
    let mut i: usize = 0;
    assert(all.take(0) =~= Seq::<Piece>::empty());
    assert(first =~= first + seen_spans(all.take(0), start as nat, end as nat));
    while i < regions.len() && col < end
        invariant
            i <= regions@.len(),
            all == pieces(regions@),
            end <= 0x4_0000_0000_0000_0000,
            col == column_after(0, regions_text(all.take(i as int))) || (col >= end
                && column_after(0, regions_text(all.take(i as int))) >= end),
            line@ == first + seen_spans(all.take(i as int), start as nat, end as nat),
        decreases regions@.len() - i,
    {
        let g = &regions[i];
        let ghost t = all.take(i + 1);
        assert(t.drop_last() =~= all.take(i as int));
        assert(t.last() == g@);
        proof {
            columns_add(0, regions_text(t.drop_last()), g.text@);
        }
        let (part, after) = visible_part(&g.text, col, start, end);
        if part.as_str().unicode_len() > 0 {
            line.push(part, syn_to_ratatui(g));
        }
        assert(line@ =~= first + seen_spans(t, start as nat, end as nat));
        col = after;
        i = i + 1;
    }
    proof {
        if i < regions@.len() {
            lemma_hidden_spans(all, i as int, start as nat, end as nat);
        } else {
            assert(all.take(i as int) =~= all);
        }
    }
    col
}

fn push_piece(line: &mut Line, content: String, style: Style)
    ensures
        final(line)@ == old(line)@ + piece(content@, style),
{
    let ghost before = line@;
    if content.as_str().unicode_len() > 0 {
        line.push(content, style);
    }
    assert(line@ =~= before + piece(content@, style));
}

/// Appends pieces of text with the cursor in place of the character at `at`.
fn push_with_cursor(line: &mut Line, spans: &Vec<Span>, at: usize)
    ensures
        final(line)@ == old(line)@ + with_cursor(span_views(spans@), at as nat),
{
    let ghost first = line@;
    let ghost all = span_views(spans@);
    let mut left: usize = at;
    let mut i: usize = 0;
    assert(all.skip(0) =~= all);
    while i < spans.len() && left >= spans[i].content.as_str().unicode_len()
        invariant
            i <= spans@.len(),
            all == span_views(spans@),
            line@ + with_cursor(all.skip(i as int), left as nat) == first + with_cursor(
                all,
                at as nat,
            ),
        decreases spans@.len() - i,
    {
        let s = &spans[i];
        let ghost rest = all.skip(i as int);
        assert(rest[0] == s@);
        assert(rest.skip(1) =~= all.skip(i + 1));
        let n: usize = s.content.as_str().unicode_len();
        let ghost before = line@;
        push_piece(line, s.content.clone(), s.style.bg(cursor_bg()));
        left = left - n;
        i = i + 1;
        assert(line@ + with_cursor(all.skip(i as int), left as nat) =~= before + with_cursor(
            rest,
            (left + n) as nat,
        ));
    }
    let ghost before = line@;
    let ghost rest = all.skip(i as int);
    if i < spans.len() {
        let s = &spans[i];
        assert(rest[0] == s@);
        let style = s.style.bg(cursor_bg());
        let chars = chars_of(&s.content);
        let total: usize = chars.len();
        let head = text_between(&chars, 0, left);
        let tail = text_between(&chars, left + 1, total);
        assert(head@ =~= s.content@.take(left as int));
        assert(tail@ =~= s.content@.skip(left as int + 1));
        push_piece(line, head, style);
        line.push_str("█", cursor_style());
        push_piece(line, tail, style);
        let ghost spliced = line@;
        let ghost others = tinted(all.skip(i + 1));
        let mut j: usize = i + 1;
        assert(others.take(0) =~= Seq::<SpanView>::empty());
        while j < spans.len()
            invariant
                i < j <= spans@.len(),
                all == span_views(spans@),
                others == tinted(all.skip(i + 1)),
                line@ == spliced + others.take(j - i - 1),
            decreases spans@.len() - j,
        {
            let o = &spans[j];
            assert(all.skip(i + 1)[j - i - 1] == o@);
            let ghost so_far = line@;
            line.push(o.content.clone(), o.style.bg(cursor_bg()));
            j = j + 1;
            assert(others.take(j - i - 1) =~= others.take(j - i - 2).push(others[j - i - 2]));
            assert(line@ =~= spliced + others.take(j - i - 1));
        }
        assert(others.take(j - i - 1) =~= others);
        assert(rest.skip(1) =~= all.skip(i + 1));
        assert(line@ =~= before + with_cursor(rest, left as nat));
    } else {
        assert(rest.len() == 0);
        push_piece(line, repeat_char(' ', left), Style::plain().bg(cursor_bg()));
        line.push_str("█", cursor_style());
        assert(line@ =~= before + with_cursor(rest, left as nat));
    }
}

impl Editor {
    fn row_line(&self, regions: &Vec<Region>, row: usize, width: u16) -> (r: Line)
        requires
            self@.wf(),
            row < self@.lines.len(),
        ensures
            forall|all: Seq<Seq<Piece>>|
                row < all.len() && all[row as int] == pieces(regions@) ==> r@ == #[trigger] shown_row(
                    self@,
                    all,
                    row as nat,
                    width,
                ),
    {
        let ghost v = self@;
        let gutter = self.gutter_w();
        let w: usize = if width as usize <= gutter {
            0
        } else {
            width as usize - gutter
        };
        let current = row == self.cursor.0;
        let mut text = pad_start(&number(row as u128 + 1, 10), gutter - 2);
        text.append("  ");
        let mut line = Line::new();
        line.push(text, number_style(current));
        assert(line@ =~= seq![row_number(v, row as nat)]);
        let start: u128 = self.scroll_col as u128;
        let end: u128 = start + w as u128;
        if !current {
            let _ = push_visible(&mut line, regions, start, end);
            return line;
        }
        let mut body = Line::new();
        let col = push_visible(&mut body, regions, start, end);
        assert(body@ =~= seen_spans(pieces(regions@), v.scroll_col, v.scroll_col + w as nat));
        let used: u128 = if col <= start {
            0
        } else {
            col - start
        };
        if used < w as u128 {
            body.push(repeat_char(' ', w - used as usize), Style::plain().bg(cursor_bg()));
        }
        assert(body@ =~= row_body(v, pieces(regions@), row as nat, width));
        let at = display_col_of(&self.lines[row], self.cursor.1);
        assert(self.lines@[row as int]@ == v.line());
        let seen_at: usize = if at <= self.scroll_col {
            0
        } else {
            at - self.scroll_col
        };
        let last: usize = if w <= 1 {
            0
        } else {
            w - 1
        };
        let at: usize = if seen_at <= last {
            seen_at
        } else {
            last
        };
        assert(at == cursor_column(v, width));
        push_with_cursor(&mut line, &body.spans, at);
        line
    }

    /// The rows on a screen of `height` rows and `width` columns, from the
    /// pieces of the lines.
    pub fn rows_from(&self, regions: &Vec<Vec<Region>>, height: u16, width: u16) -> (r: Vec<Line>)
        requires
            self@.wf(),
            regions@.len() >= rows_needed(self@, height),
        ensures
            line_views(r@) == shown_rows(self@, region_lists(regions@), height, width),
    {
        let ghost v = self@;
        let ghost lists = region_lists(regions@);
        let ghost all = shown_rows(v, lists, height, width);
        let total: usize = self.lines.len();
        assert(total == v.lines.len());
        let mut out: Vec<Line> = Vec::new();
        let mut i: u16 = 0;
        assert(line_views(out@) =~= all.take(0));
        while i < height
            invariant
                i <= height,
                v == self@,
                v.wf(),
                total == v.lines.len(),
                lists == region_lists(regions@),
                regions@.len() >= rows_needed(v, height),
                all == shown_rows(v, lists, height, width),
                line_views(out@) == all.take(i as int),
            decreases height - i,
        {
            let line = if self.scroll_row >= total || (i as usize) >= total - self.scroll_row {
                Line::new()
            } else {
                let row: usize = self.scroll_row + i as usize;
                assert(row < regions@.len());
                assert(lists[row as int] == pieces(regions@[row as int]@));
                let l = self.row_line(&regions[row], row, width);
                assert(l@ == shown_row(v, lists, row as nat, width));
                l
            };
            assert(line@ =~= all[i as int]);
            let ghost before = line_views(out@);
            out.push(line);
            assert(line_views(out@) =~= before.push(line@));
            i = i + 1;
            assert(all.take(i as int) =~= all.take(i - 1).push(line@));
        }
        assert(all.take(height as int) =~= all);
        out
    }

    /// The rows on a screen of `height` rows and `width` columns. The pieces of
    /// a line, put together, are the line.
    pub fn view_lines(&self, height: u16, width: u16) -> (r: Vec<Line>)
        requires
            self@.wf(),
        ensures
            line_views(r@) == self@.text_shown(height, width),
            forall|i: int|
                0 <= i < rows_needed(self@, height) ==> pieces_of(
                    #[trigger] line_pieces(self@.grammar, self@.lines, i),
                    self@.lines[i],
                ),
    {
        let total: usize = self.lines.len();
        assert(total == self@.lines.len());
        let to: usize = if self.scroll_row >= total || (height as usize) >= total
            - self.scroll_row {
            total
        } else {
            self.scroll_row + height as usize
        };
        let regions = highlight(&self.syntaxes, &self.syntax, &self.palette, &self.lines, to);
        assert(region_lists(regions@).len() == regions@.len());
        self.rows_from(&regions, height, width)
    }
}

impl EditorView {
    /// All rows on a screen of `height` rows and `width` columns, in the colors
    /// of the grammar.
    pub open spec fn text_shown(self, height: u16, width: u16) -> Seq<Seq<SpanView>> {
        let regions = text_pieces(self.grammar, self.lines, rows_needed(self, height));
        shown_rows(self, regions, height, width)
    }
}

proof fn lemma_line_text_add(a: Seq<SpanView>, b: Seq<SpanView>)
    ensures
        line_text(a + b) == line_text(a) + line_text(b),
    decreases b.len(),
{
    if b.len() == 0 {
        assert(a + b =~= a);
        assert(line_text(a) + line_text(b) =~= line_text(a));
    } else {
        lemma_line_text_add(a, b.drop_last());
        assert((a + b).drop_last() =~= a + b.drop_last());
        assert(line_text(a + b) =~= line_text(a) + line_text(b));
    }
}

proof fn lemma_one_piece(s: SpanView)
    ensures
        line_text(seq![s]) == s.content,
{
    assert(seq![s].drop_last() =~= Seq::<SpanView>::empty());
    assert(line_text(seq![s].drop_last()) == Seq::<char>::empty());
    assert(line_text(seq![s]) =~= s.content);
}

proof fn lemma_piece(content: Seq<char>, style: Style)
    ensures
        line_text(piece(content, style)) == content,
{
    if content.len() > 0 {
        lemma_one_piece(sp(content, style));
    } else {
        assert(line_text(piece(content, style)) =~= content);
    }
}

/// The cursor is seen where it is: the character at `at` is the block, and all
/// before it is as it was, or blank behind the end.
pub proof fn cursor_is_seen(spans: Seq<SpanView>, at: nat)
    ensures
        line_text(with_cursor(spans, at)).len() > at,
        line_text(with_cursor(spans, at))[at as int] == '█',
        forall|i: int|
            0 <= i < at ==> #[trigger] line_text(with_cursor(spans, at))[i] == (if i < line_text(
                spans,
            ).len() {
                line_text(spans)[i]
            } else {
                ' '
            }),
    decreases spans.len(),
{
    reveal_strlit("█");
    lemma_one_piece(cursor_block());
    let c = seq![cursor_block()];
    if spans.len() == 0 {
        let p = piece(repeated(' ', at), Style::plain().bg(cursor_bg()));
        lemma_piece(repeated(' ', at), Style::plain().bg(cursor_bg()));
        assert(p.push(cursor_block()) =~= p + c);
        lemma_line_text_add(p, c);
    } else {
        let s = spans[0];
        let style = s.style.bg(cursor_bg());
        let n = s.content.len();
        lemma_one_piece(s);
        assert(spans =~= seq![s] + spans.skip(1));
        lemma_line_text_add(seq![s], spans.skip(1));
        if at < n {
            let p = piece(s.content.take(at as int), style);
            let q = piece(s.content.skip(at as int + 1), style);
            let t = tinted(spans.skip(1));
            lemma_piece(s.content.take(at as int), style);
            assert(p.push(cursor_block()) =~= p + c);
            lemma_line_text_add(p, c);
            lemma_line_text_add(p + c, q);
            lemma_line_text_add(p + c + q, t);
        } else {
            let m = (at - n) as nat;
            let p = piece(s.content, style);
            lemma_piece(s.content, style);
            cursor_is_seen(spans.skip(1), m);
            lemma_line_text_add(p, with_cursor(spans.skip(1), m));
            let w = line_text(with_cursor(spans, at));
            let inner = line_text(with_cursor(spans.skip(1), m));
            assert(w =~= s.content + inner);
            assert forall|i: int| 0 <= i < at implies #[trigger] w[i] == (if i < line_text(
                spans,
            ).len() {
                line_text(spans)[i]
            } else {
                ' '
            }) by {
                if i >= n {
                    assert(w[i] == inner[i - n]);
                }
            }
        }
    }
}

} // verus!
