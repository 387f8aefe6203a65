//! What is seen of the text in the editor.

use vstd::prelude::*;

use crate::editor::columns::{column_after, column_of};
use crate::editor::file::{
    opened, save_message, temporary_name, temporary_path, title_text, SaveOutcome,
};
use crate::editor::syntax::{regions_text, Piece};
use crate::editor::view::{
    body_width, cursor_is_seen, row_body, row_number, seen, seen_char, seen_spans, shown_row,
    shown_rows, with_cursor,
};
use crate::editor::{EditorView, PromptView};
use crate::figures::numbers_read_back;
use crate::paths::{file_name_of, joined, parent_of};
use crate::style::{line_text, sp, SpanView};
use crate::text::{decimal_text, padded_start};

verus! {

/// A number, but no less than `lo` and no more than `hi`.
pub open spec fn held(i: int, lo: int, hi: int) -> int {
    if i < lo {
        lo
    } else if i > hi {
        hi
    } else {
        i
    }
}

/// What a window of the columns from `start` up to `end` shows of a line without tabs that
/// starts in column `from`.
pub open spec fn through_window(s: Seq<char>, from: int, start: int, end: int) -> Seq<char> {
    let n = s.len() as int;
    let a = held(start - from, 0, n);
    s.subrange(a, held(end - from, a, n))
}

proof fn lemma_columns(from: nat, s: Seq<char>)
    requires
        !s.contains('\t'),
    ensures
        column_after(from, s) == from + s.len(),
    decreases s.len(),
{
    if s.len() > 0 {
        let d = s.drop_last();
        assert(s.contains(s[s.len() - 1]));
        assert forall|i: int| 0 <= i < d.len() implies d[i] != '\t' by {
            assert(s.contains(s[i]));
        }
        lemma_columns(from, d);
    }
}

proof fn lemma_seen(s: Seq<char>, from: nat, start: nat, end: nat)
    requires
        !s.contains('\t'),
        start <= end,
    ensures
        seen(s, from, start, end) == through_window(s, from as int, start as int, end as int),
    decreases s.len(),
{
    let w = through_window(s, from as int, start as int, end as int);
    if s.len() > 0 {
        let d = s.drop_last();
        assert(s.contains(s[s.len() - 1]));
        assert forall|i: int| 0 <= i < d.len() implies d[i] != '\t' by {
            assert(s.contains(s[i]));
        }
        lemma_seen(d, from, start, end);
        lemma_columns(from, d);
        let col = from + d.len();
        let c = seen_char(s.last(), col, start, end);
        assert(seen(s, from, start, end) =~= w);
    } else {
        assert(seen(s, from, start, end) =~= w);
    }
}

proof fn lemma_text_add(a: Seq<SpanView>, b: SpanView)
    ensures
        line_text(a.push(b)) == line_text(a) + b.content,
{
    assert(a.push(b).drop_last() =~= a);
}

proof fn lemma_seen_spans(v: Seq<Piece>, start: nat, end: nat)
    requires
        !regions_text(v).contains('\t'),
        start <= end,
    ensures
        line_text(seen_spans(v, start, end)) == through_window(
            regions_text(v),
            0,
            start as int,
            end as int,
        ),
    decreases v.len(),
{
    let t = regions_text(v);
    if v.len() > 0 {
        let d = v.drop_last();
        let (a, b) = (regions_text(d), v.last().text);
        assert(t == a + b);
        assert forall|i: int| 0 <= i < a.len() implies a[i] != '\t' by {
            assert(t[i] == a[i]);
            assert(t.contains(t[i]));
        }
        assert forall|i: int| 0 <= i < b.len() implies b[i] != '\t' by {
            assert(t[a.len() + i] == b[i]);
            assert(t.contains(t[a.len() + i]));
        }
        lemma_seen_spans(d, start, end);
        lemma_columns(0, a);
        lemma_seen(b, a.len(), start, end);
        let s = seen(b, column_after(0, a), start, end);
        let before = seen_spans(d, start, end);
        if s.len() > 0 {
            lemma_text_add(before, sp(s, crate::editor::syntax::region_style(v.last())));
        }
        assert(line_text(seen_spans(v, start, end)) =~= line_text(before) + s);
        assert(through_window(a, 0, start as int, end as int) + s =~= through_window(
            t,
            0,
            start as int,
            end as int,
        ));
    } else {
        assert(through_window(t, 0, start as int, end as int) =~= Seq::<char>::empty());
    }
}

/// A row of the screen shows the line that many below the first one that is seen: its
/// number, and the part of it that is in the window. Below the last line nothing is shown.
pub proof fn rows_show_their_lines(
    v: EditorView,
    regions: Seq<Seq<Piece>>,
    height: u16,
    width: u16,
    i: int,
)
    requires
        v.lines.len() > 0,
        0 <= i < height,
        v.scroll_row + i != v.row,
        v.scroll_row + i < v.lines.len() ==> {
            &&& regions_text(regions[v.scroll_row + i]) == v.lines[v.scroll_row + i]
            &&& !v.lines[v.scroll_row + i].contains('\t')
        },
    ensures
        ({
            let rows = shown_rows(v, regions, height, width);
            let k = v.scroll_row + i;
            let room = if width as int > v.gutter() {
                width as int - v.gutter()
            } else {
                0
            };
            &&& rows.len() == height
            &&& k < v.lines.len() ==> line_text(rows[i]) == padded_start(
                decimal_text((k + 1) as nat),
                (v.gutter() - 2) as nat,
            ) + seq![' ', ' '] + through_window(
                v.lines[k],
                0,
                v.scroll_col as int,
                v.scroll_col + room,
            )
            &&& k >= v.lines.len() ==> rows[i].len() == 0
        }),
{
    let k = v.scroll_row + i;
    let rows = shown_rows(v, regions, height, width);
    assert(rows[i] == shown_row(v, regions, k as nat, width));
    if k < v.lines.len() {
        reveal_strlit("  ");
        assert("  "@ =~= seq![' ', ' ']);
        let w = body_width(v, width);
        let body = row_body(v, regions[k], k as nat, width);
        assert(body == seen_spans(regions[k], v.scroll_col, v.scroll_col + w));
        lemma_seen_spans(regions[k], v.scroll_col, v.scroll_col + w);
        lemma_front(row_number(v, k as nat), body);
    }
}

proof fn lemma_front(a: SpanView, b: Seq<SpanView>)
    ensures
        line_text(seq![a] + b) == a.content + line_text(b),
    decreases b.len(),
{
    if b.len() == 0 {
        assert(seq![a] + b =~= seq![a]);
        assert(seq![a].drop_last() =~= Seq::<SpanView>::empty());
        assert(line_text(seq![a].drop_last()) == Seq::<char>::empty());
        assert(line_text(b) == Seq::<char>::empty());
        assert(line_text(seq![a]) =~= a.content + line_text(b));
    } else {
        lemma_front(a, b.drop_last());
        assert((seq![a] + b).drop_last() =~= seq![a] + b.drop_last());
        assert(line_text(seq![a] + b) =~= a.content + line_text(b));
    }
}

/// A tab leads to the next column that is a multiple of four; any other character takes
/// one column.
pub proof fn tabs_lead_to_the_next_stop(from: nat, s: Seq<char>, c: char)
    ensures
        ({
            let (a, b) = (column_after(from, s), column_after(from, s.push(c)));
            &&& c == '\t' ==> b % 4 == 0 && a < b <= a + 4
            &&& c != '\t' ==> b == a + 1
        }),
{
    assert(s.push(c).drop_last() =~= s);
}

/// The text is scrolled only as far as it has to be for the cursor to be seen: not at all
/// where it is seen, else so that it is in the first or in the last row.
pub proof fn scrolling_goes_no_further(v: EditorView)
    ensures
        ({
            let w = v.scrolled();
            let n = v.rows_shown();
            &&& v.scroll_row <= v.row < v.scroll_row + n ==> w.scroll_row == v.scroll_row
            &&& v.row < v.scroll_row ==> w.scroll_row == v.row
            &&& v.row >= v.scroll_row + n ==> w.scroll_row + n == v.row + 1
            &&& n == (if v.size.1 > 3 {
                v.size.1 - 3
            } else {
                1
            })
        }),
{
}

/// The title says which file is edited, and where the cursor is, lines and bytes counted
/// from one; it says so where there are changes.
pub proof fn the_title_says_the_place(v: EditorView)
    ensures
        ({
            let t = title_text(v);
            let place = v.path + "  ·  "@ + v.language + "  ·  L"@ + decimal_text(v.row + 1)
                + ":C"@ + decimal_text(v.col + 1);
            &&& !v.modified ==> t == place
            &&& v.modified ==> t == place + "  [modified]"@
        }),
{
    let place = v.path + "  ·  "@ + v.language + "  ·  L"@ + decimal_text(v.row + 1) + ":C"@
        + decimal_text(v.col + 1);
    assert(place + Seq::<char>::empty() =~= place);
}

/// The temporary file of a file is hidden, and two programs do not use the same.
pub proof fn temporary_files_are_apart(path: Seq<char>, p: u32, q: u32)
    ensures
        temporary_name(path, p)[0] == '.',
        p != q ==> temporary_name(path, p) != temporary_name(path, q),
{
    reveal_strlit(".");
    let name = match file_name_of(path) {
        Some(n) => n,
        None => "file"@,
    };
    let front = "."@ + name + ".diskvis-"@;
    let (a, b) = (decimal_text(p as nat), decimal_text(q as nat));
    let end = ".tmp"@;
    let (s, t) = (temporary_name(path, p), temporary_name(path, q));
    assert(s =~= front + a + end);
    assert(t =~= front + b + end);
    assert(s[0] == front[0]);
    if s == t {
        let n = front.len() as int;
        assert(s.len() == n + a.len() + end.len());
        assert(t.len() == n + b.len() + end.len());
        assert(s.subrange(n, n + a.len()) =~= a);
        assert(t.subrange(n, n + b.len()) =~= b);
        numbers_read_back(p as nat, 10);
        numbers_read_back(q as nat, 10);
    }
}

/// A file is opened at its start, unchanged and with nothing to undo; one that is large or
/// has a zero byte among its first bytes is asked about first, and the answer no is
/// selected.
pub proof fn files_are_opened_at_their_start(path: Seq<char>, size: u64, bytes: Seq<u8>)
    ensures
        ({
            let v = opened(path, size, bytes);
            &&& v.path == path
            &&& v.row == 0
            &&& v.col == 0
            &&& !v.modified
            &&& v.undo.len() == 0
            &&& v.redo.len() == 0
            &&& v.prompt is None <==> size <= 10 * 1024 * 1024 && forall|i: int|
                0 <= i < bytes.len() && i < 8192 ==> #[trigger] bytes[i] != 0
            &&& v.prompt is Some ==> v.prompt == Some(PromptView::LargeFile { selection: 1, size })
        }),
{
}

/// What is said of saving tells what came of it, with the file or the reason.
pub proof fn messages_tell_what_came_of_saving(path: Seq<char>, pid: u32, outcome: SaveOutcome)
    ensures
        ({
            let m = save_message(path, pid, outcome);
            match outcome {
                SaveOutcome::Saved => m == "saved "@ + path,
                SaveOutcome::WriteFailed(why) => m == "save failed: write "@ + temporary_path(
                    path,
                    pid,
                ) + ": "@ + why@,
                SaveOutcome::RenameFailed(why) => m == "save failed: rename: "@ + why@,
            }
        }),
        ({
            let t = temporary_name(path, pid);
            match parent_of(path) {
                Some(dir) => temporary_path(path, pid) == joined(dir, t),
                None => temporary_path(path, pid) == t,
            }
        }),
{
}

/// In the row with the cursor, behind its number, a block stands in the column of the
/// cursor, counted from the first one that is seen.
pub proof fn the_cursor_is_seen_in_its_column(
    v: EditorView,
    regions: Seq<Seq<Piece>>,
    height: u16,
    width: u16,
    i: int,
)
    requires
        0 <= i < height,
        v.scroll_row + i == v.row,
        v.row < v.lines.len(),
        v.scroll_col <= column_of(v.line(), v.col),
        column_of(v.line(), v.col) - v.scroll_col + v.gutter() < width,
    ensures
        ({
            let row = shown_rows(v, regions, height, width)[i];
            let n = row[0].content.len() as int;
            let at = column_of(v.line(), v.col) - v.scroll_col;
            &&& row[0].content == padded_start(
                decimal_text(v.row + 1),
                (v.gutter() - 2) as nat,
            ) + seq![' ', ' ']
            &&& n + at < line_text(row).len()
            &&& line_text(row)[n + at] == '█'
        }),
{
    reveal_strlit("  ");
    assert("  "@ =~= seq![' ', ' ']);
    let row = shown_rows(v, regions, height, width)[i];
    assert(row == shown_row(v, regions, v.row, width));
    let body = row_body(v, regions[v.row as int], v.row, width);
    let at = (column_of(v.line(), v.col) - v.scroll_col) as nat;
    assert(crate::editor::view::cursor_column(v, width) == at);
    cursor_is_seen(body, at);
    lemma_front(row_number(v, v.row), with_cursor(body, at));
}

} // verus!
