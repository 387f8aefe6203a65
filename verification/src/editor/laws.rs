//! What the keys of the editor do to the lines and the cursor.

use vstd::prelude::*;

use crate::bytes::{
    boundaries_are_ordered, byte_len, byte_len_adds, ends_are_boundaries,
    prefix_ends_on_boundary,
};
use crate::editor::columns::started_at_boundary;
use crate::editor::{dedent_len, indent_len, leading_blanks, EditorView, UNDO_BATCH_NS};
use crate::keys::{KeyCode, KeyEvent};

verus! {

/// Killing a line takes out the line with the cursor and no other: the lines above
/// stay, those below move up by one. The cursor goes to the start of the line that
/// is there now, or of the last line.
pub proof fn kill_removes_the_line(v: EditorView, key: KeyEvent, now: u64)
    requires
        key.press,
        key.ctrl,
        key.code == KeyCode::Char('k'),
        v.prompt is None,
        v.row < v.lines.len(),
        v.lines.len() > 1,
    ensures
        ({
            let w = v.key_step(key, now).0;
            let n = v.lines.len();
            &&& w.lines.len() == n - 1
            &&& forall|i: int| 0 <= i < v.row ==> #[trigger] w.lines[i] == v.lines[i]
            &&& forall|i: int| v.row <= i < n - 1 ==> #[trigger] w.lines[i] == v.lines[i + 1]
            &&& w.col == 0
            &&& w.row == (if v.row + 1 < n {
                v.row as int
            } else {
                n - 2
            })
            &&& w.modified
        }),
{
}

/// Killing an only line leaves an empty one.
pub proof fn kill_empties_an_only_line(v: EditorView, key: KeyEvent, now: u64)
    requires
        key.press,
        key.ctrl,
        key.code == KeyCode::Char('k'),
        v.prompt is None,
        v.lines.len() == 1,
    ensures
        ({
            let w = v.key_step(key, now).0;
            w.lines.len() == 1 && w.lines[0].len() == 0 && w.row == 0 && w.col == 0 && w.modified
        }),
{
}

/// Duplicating repeats the line with the cursor below it and moves the cursor down
/// into the copy; no other line changes.
pub proof fn duplicate_repeats_the_line(v: EditorView, key: KeyEvent, now: u64)
    requires
        key.press,
        key.ctrl,
        key.code == KeyCode::Char('d'),
        v.prompt is None,
        v.row < v.lines.len(),
    ensures
        ({
            let w = v.key_step(key, now).0;
            let n = v.lines.len();
            &&& w.lines.len() == n + 1
            &&& forall|i: int| 0 <= i <= v.row ==> #[trigger] w.lines[i] == v.lines[i]
            &&& forall|i: int| v.row < i <= n ==> #[trigger] w.lines[i] == v.lines[i - 1]
            &&& w.row == v.row + 1
            &&& w.col == v.col
            &&& w.modified
        }),
{
}

/// A kill right after a duplicate brings back the lines that were there.
#[verifier::rlimit(60)]
pub proof fn kill_reverts_duplicate(
    v: EditorView,
    double: KeyEvent,
    kill: KeyEvent,
    now: u64,
    later: u64,
)
    requires
        double.press && double.ctrl && double.code == KeyCode::Char('d'),
        kill.press && kill.ctrl && kill.code == KeyCode::Char('k'),
        v.prompt is None,
        v.row < v.lines.len(),
    ensures
        v.key_step(double, now).0.key_step(kill, later).0.lines == v.lines,
{
    lemma_duplicate_step(v, double, now);
    lemma_kill_copy(v.lines, v.row, v.key_step(double, now).0, kill, later);
}

proof fn lemma_duplicate_step(v: EditorView, key: KeyEvent, now: u64)
    requires
        key.press && key.ctrl && key.code == KeyCode::Char('d'),
        v.prompt is None,
        v.row < v.lines.len(),
    ensures
        v.key_step(key, now).0.lines == v.lines.insert(v.row as int + 1, v.lines[v.row as int]),
        v.key_step(key, now).0.row == v.row + 1,
        v.key_step(key, now).0.prompt is None,
{
}

proof fn lemma_kill_copy(
    lines: Seq<Seq<char>>,
    row: nat,
    d: EditorView,
    key: KeyEvent,
    now: u64,
)
    requires
        key.press && key.ctrl && key.code == KeyCode::Char('k'),
        d.prompt is None,
        row < lines.len(),
        d.lines == lines.insert(row as int + 1, lines[row as int]),
        d.row == row + 1,
    ensures
        d.key_step(key, now).0.lines == lines,
{
    kill_removes_the_line(d, key, now);
    assert(d.key_step(key, now).0.lines =~= lines);
}

/// What is typed stands between the characters before the cursor and those behind
/// it; no other line changes, and the cursor is behind what was typed. A tab is
/// four blanks.
#[verifier::rlimit(40)]
pub proof fn typing_inserts_at_the_cursor(v: EditorView, key: KeyEvent, now: u64, k: int)
    requires
        key.press,
        v.prompt is None,
        v.row < v.lines.len(),
        0 <= k <= v.lines[v.row as int].len(),
        byte_len(v.lines[v.row as int].take(k)) == v.col,
        key.code is Tab || (key.code is Char && !key.ctrl),
    ensures
        ({
            let w = v.key_step(key, now).0;
            let line = v.lines[v.row as int];
            let typed = match key.code {
                KeyCode::Char(c) => seq![c],
                _ => seq![' ', ' ', ' ', ' '],
            };
            &&& w.lines.len() == v.lines.len()
            &&& forall|i: int|
                0 <= i < v.lines.len() && i != v.row ==> #[trigger] w.lines[i] == v.lines[i]
            &&& w.lines[v.row as int] == line.take(k) + typed + line.skip(k)
            &&& w.row == v.row
            &&& w.col == byte_len(line.take(k) + typed)
            &&& w.modified
        }),
{
    reveal_strlit("    ");
    assert("    "@ =~= seq![' ', ' ', ' ', ' ']);
    match key.code {
        KeyCode::Char(c) => {
            lemma_inserted(v, seq![c], now, k);
            assert(v.key_step(key, now).0 == v.inserted(seq![c], now));
        },
        _ => {
            lemma_inserted(v, seq![' ', ' ', ' ', ' '], now, k);
            assert(v.key_step(key, now).0 == v.inserted(seq![' ', ' ', ' ', ' '], now));
        },
    }
}

proof fn lemma_inserted(v: EditorView, s: Seq<char>, now: u64, k: int)
    requires
        v.row < v.lines.len(),
        0 <= k <= v.lines[v.row as int].len(),
        byte_len(v.lines[v.row as int].take(k)) == v.col,
    ensures
        ({
            let w = v.inserted(s, now);
            let line = v.lines[v.row as int];
            &&& w.lines.len() == v.lines.len()
            &&& forall|i: int|
                0 <= i < v.lines.len() && i != v.row ==> #[trigger] w.lines[i] == v.lines[i]
            &&& w.lines[v.row as int] == line.take(k) + s + line.skip(k)
            &&& w.row == v.row
            &&& w.col == byte_len(line.take(k) + s)
            &&& w.modified
        }),
{
    let line = v.lines[v.row as int];
    prefix_ends_on_boundary(line, k);
    byte_len_adds(line.take(k), s);
}

proof fn lemma_indent(s: Seq<char>)
    ensures
        indent_len(s) <= s.len(),
        forall|i: int| 0 <= i < indent_len(s) ==> #[trigger] s[i] == ' ' || s[i] == '\t',
        indent_len(s) < s.len() ==> s[indent_len(s) as int] != ' ' && s[indent_len(s) as int]
            != '\t',
    decreases s.len(),
{
    if s.len() > 0 && (s[0] == ' ' || s[0] == '\t') {
        lemma_indent(s.skip(1));
        let m = indent_len(s) as int;
        assert forall|i: int| 0 <= i < m implies #[trigger] s[i] == ' ' || s[i] == '\t' by {
            if i > 0 {
                assert(s.skip(1)[i - 1] == s[i]);
            }
        }
        if m < s.len() {
            assert(s.skip(1)[m - 1] == s[m]);
        }
    }
}

/// Enter breaks the line at the cursor. What was before the cursor stays; what was
/// behind it is a new line below, which starts with the blanks that the line starts
/// with, up to the cursor. The cursor is behind those blanks.
#[verifier::rlimit(40)]
pub proof fn enter_breaks_the_line(v: EditorView, key: KeyEvent, now: u64, k: int, m: int)
    requires
        key.press,
        key.code == KeyCode::Enter,
        v.prompt is None,
        v.row < v.lines.len(),
        0 <= m <= k <= v.lines[v.row as int].len(),
        byte_len(v.lines[v.row as int].take(k)) == v.col,
        forall|i: int|
            0 <= i < m ==> #[trigger] v.lines[v.row as int][i] == ' ' || v.lines[v.row as int][i]
                == '\t',
        m < k ==> v.lines[v.row as int][m] != ' ' && v.lines[v.row as int][m] != '\t',
    ensures
        ({
            let w = v.key_step(key, now).0;
            let line = v.lines[v.row as int];
            &&& w.lines.len() == v.lines.len() + 1
            &&& forall|i: int| 0 <= i < v.row ==> #[trigger] w.lines[i] == v.lines[i]
            &&& w.lines[v.row as int] == line.take(k)
            &&& w.lines[v.row as int + 1] == line.take(m) + line.skip(k)
            &&& forall|i: int|
                v.row + 1 < i < w.lines.len() ==> #[trigger] w.lines[i] == v.lines[i - 1]
            &&& w.row == v.row + 1
            &&& w.col == byte_len(line.take(m))
            &&& w.modified
        }),
{
    let line = v.lines[v.row as int];
    prefix_ends_on_boundary(line, k);
    let head = line.take(k);
    lemma_indent(head);
    let d = indent_len(head) as int;
    if d < m {
        assert(head[d] == line[d]);
    } else if m < d {
        assert(head[m] == line[m]);
    }
    assert(head.take(m) =~= line.take(m));
}

/// Backspace takes out the character before the cursor and nothing else.
#[verifier::rlimit(40)]
pub proof fn backspace_removes_one_character(v: EditorView, key: KeyEvent, now: u64, k: int)
    requires
        key.press,
        key.code == KeyCode::Backspace,
        v.prompt is None,
        v.row < v.lines.len(),
        0 < k <= v.lines[v.row as int].len(),
        byte_len(v.lines[v.row as int].take(k)) == v.col,
    ensures
        ({
            let w = v.key_step(key, now).0;
            let line = v.lines[v.row as int];
            &&& w.lines.len() == v.lines.len()
            &&& forall|i: int|
                0 <= i < v.lines.len() && i != v.row ==> #[trigger] w.lines[i] == v.lines[i]
            &&& w.lines[v.row as int] == line.take(k - 1) + line.skip(k)
            &&& w.row == v.row
            &&& w.col == byte_len(line.take(k - 1))
            &&& w.modified
        }),
{
    let line = v.lines[v.row as int];
    prefix_ends_on_boundary(line, k);
    started_at_boundary(line, v.col);
    boundaries_are_ordered(line, 0, k);
    assert(line.remove(k - 1) =~= line.take(k - 1) + line.skip(k));
}

/// At the start of a line, backspace joins it to the line above, with the cursor
/// where they meet; at the start of the text it does nothing.
pub proof fn backspace_joins_lines(v: EditorView, key: KeyEvent, now: u64)
    requires
        key.press,
        key.code == KeyCode::Backspace,
        v.prompt is None,
        v.row < v.lines.len(),
        v.col == 0,
    ensures
        v.row == 0 ==> v.key_step(key, now).0 == v,
        v.row > 0 ==> {
            let w = v.key_step(key, now).0;
            let r = v.row as int;
            &&& w.lines.len() == v.lines.len() - 1
            &&& forall|i: int| 0 <= i < r - 1 ==> #[trigger] w.lines[i] == v.lines[i]
            &&& w.lines[r - 1] == v.lines[r - 1] + v.lines[r]
            &&& forall|i: int| r <= i < w.lines.len() ==> #[trigger] w.lines[i] == v.lines[i + 1]
            &&& w.row == r - 1
            &&& w.col == byte_len(v.lines[r - 1])
            &&& w.modified
        },
{
}

/// Delete takes out the character behind the cursor and nothing else; the cursor
/// stays.
#[verifier::rlimit(40)]
pub proof fn delete_removes_one_character(v: EditorView, key: KeyEvent, now: u64, k: int)
    requires
        key.press,
        key.code == KeyCode::Delete,
        v.prompt is None,
        v.row < v.lines.len(),
        0 <= k < v.lines[v.row as int].len(),
        byte_len(v.lines[v.row as int].take(k)) == v.col,
    ensures
        ({
            let w = v.key_step(key, now).0;
            let line = v.lines[v.row as int];
            &&& w.lines.len() == v.lines.len()
            &&& forall|i: int|
                0 <= i < v.lines.len() && i != v.row ==> #[trigger] w.lines[i] == v.lines[i]
            &&& w.lines[v.row as int] == line.take(k) + line.skip(k + 1)
            &&& w.row == v.row
            &&& w.col == v.col
            &&& w.modified
        }),
{
    let line = v.lines[v.row as int];
    prefix_ends_on_boundary(line, k);
    boundaries_are_ordered(line, k, line.len() as int);
    assert(line.take(line.len() as int) =~= line);
    assert(line.remove(k) =~= line.take(k) + line.skip(k + 1));
}

/// At the end of a line, delete joins the line below to it; at the end of the text
/// it does nothing.
pub proof fn delete_joins_lines(v: EditorView, key: KeyEvent, now: u64)
    requires
        key.press,
        key.code == KeyCode::Delete,
        v.prompt is None,
        v.row < v.lines.len(),
        v.col == byte_len(v.lines[v.row as int]),
    ensures
        v.row + 1 == v.lines.len() ==> v.key_step(key, now).0 == v,
        v.row + 1 < v.lines.len() ==> {
            let w = v.key_step(key, now).0;
            let r = v.row as int;
            &&& w.lines.len() == v.lines.len() - 1
            &&& forall|i: int| 0 <= i < r ==> #[trigger] w.lines[i] == v.lines[i]
            &&& w.lines[r] == v.lines[r] + v.lines[r + 1]
            &&& forall|i: int| r < i < w.lines.len() ==> #[trigger] w.lines[i] == v.lines[i + 1]
            &&& w.row == v.row
            &&& w.col == v.col
            &&& w.modified
        },
{
}

proof fn lemma_leading(s: Seq<char>, n: nat, m: int)
    requires
        0 <= m <= s.len(),
        m <= n,
        forall|i: int| 0 <= i < m ==> #[trigger] s[i] == ' ',
        m == n || m == s.len() || s[m] != ' ',
    ensures
        leading_blanks(s, n) == m,
    decreases n,
{
    if m > 0 {
        let t = s.skip(1);
        assert(s[0] == ' ');
        assert forall|i: int| 0 <= i < m - 1 implies #[trigger] t[i] == ' ' by {
            assert(t[i] == s[i + 1]);
        }
        if m < s.len() {
            assert(t[m - 1] == s[m]);
        }
        lemma_leading(t, (n - 1) as nat, m - 1);
    }
}

/// Shift and tab take up to four blanks from the start of the line, or one tab
/// where it starts with none, and nothing else; the cursor keeps its place in the
/// text.
#[verifier::rlimit(40)]
pub proof fn back_tab_takes_an_indentation(v: EditorView, key: KeyEvent, now: u64, m: int)
    requires
        key.press,
        key.code == KeyCode::BackTab,
        v.prompt is None,
        v.row < v.lines.len(),
        ({
            let line = v.lines[v.row as int];
            ||| {
                &&& 0 <= m <= line.len() && m <= 4
                &&& forall|i: int| 0 <= i < m ==> #[trigger] line[i] == ' '
                &&& m == 4 || m == line.len() || line[m] != ' '
                &&& line.len() > 0 ==> line[0] != '\t'
            }
            ||| m == 1 && line.len() > 0 && line[0] == '\t'
        }),
    ensures
        ({
            let w = v.key_step(key, now).0;
            &&& w.lines.len() == v.lines.len()
            &&& forall|i: int|
                0 <= i < v.lines.len() && i != v.row ==> #[trigger] w.lines[i] == v.lines[i]
            &&& w.lines[v.row as int] == v.lines[v.row as int].skip(m)
            &&& w.row == v.row
            &&& w.col == (if v.col >= m {
                v.col - m
            } else {
                0
            })
            &&& w.modified == (v.modified || m > 0)
        }),
{
    let line = v.lines[v.row as int];
    if line.len() > 0 && line[0] == '\t' {
        lemma_leading(line, 4, 0);
    } else {
        lemma_leading(line, 4, m);
    }
    assert(dedent_len(line) == m);
}

/// Home and end go to the two ends of the line.
pub proof fn home_and_end_reach_the_ends(v: EditorView, key: KeyEvent, now: u64)
    requires
        key.press,
        v.prompt is None,
        key.code is Home || key.code is End,
    ensures
        v.key_step(key, now).0.row == v.row,
        v.key_step(key, now).0.col == (if key.code is Home {
            0
        } else {
            byte_len(v.lines[v.row as int])
        }),
{
}

/// Up and down go one line, and page up and page down as many as are on the screen,
/// as far as there are lines; the cursor goes no further right than the line does.
#[verifier::rlimit(40)]
pub proof fn vertical_keys_change_the_line(v: EditorView, key: KeyEvent, now: u64)
    requires
        key.press,
        v.prompt is None,
        v.row < v.lines.len(),
        v.col <= byte_len(v.lines[v.row as int]),
        key.code is Up || key.code is Down || key.code is PageUp || key.code is PageDown,
    ensures
        ({
            let w = v.key_step(key, now).0;
            let page = if v.size.1 <= 3 {
                1
            } else {
                v.size.1 - 3
            };
            let last = v.lines.len() - 1;
            let wanted = match key.code {
                KeyCode::Up => v.row - 1,
                KeyCode::Down => v.row as int + 1,
                KeyCode::PageUp => v.row - page,
                _ => v.row as int + page,
            };
            let row = if wanted < 0 {
                0
            } else if wanted > last {
                last
            } else {
                wanted
            };
            let len = byte_len(v.lines[row]);
            w.row == row && w.col == (if v.col <= len {
                v.col
            } else {
                len
            })
        }),
{
}

/// Left and right go one character, and over the end of a line into the next one.
#[verifier::rlimit(40)]
pub proof fn horizontal_keys_go_one_character(v: EditorView, key: KeyEvent, now: u64, k: int)
    requires
        key.press,
        !key.ctrl,
        v.prompt is None,
        v.row < v.lines.len(),
        0 <= k <= v.lines[v.row as int].len(),
        byte_len(v.lines[v.row as int].take(k)) == v.col,
        key.code is Left || key.code is Right,
    ensures
        ({
            let w = v.key_step(key, now).0;
            let line = v.lines[v.row as int];
            if key.code is Left {
                if k > 0 {
                    w.row == v.row && w.col == byte_len(line.take(k - 1))
                } else if v.row > 0 {
                    w.row == v.row - 1 && w.col == byte_len(v.lines[v.row - 1])
                } else {
                    w.row == 0 && w.col == 0
                }
            } else {
                if k < line.len() {
                    w.row == v.row && w.col == byte_len(line.take(k + 1))
                } else if v.row + 1 < v.lines.len() {
                    w.row == v.row + 1 && w.col == 0
                } else {
                    w.row == v.row && w.col == v.col
                }
            }
        }),
{
    let line = v.lines[v.row as int];
    prefix_ends_on_boundary(line, k);
    started_at_boundary(line, v.col);
    ends_are_boundaries(line);
    assert(line.take(line.len() as int) =~= line);
    assert(line.take(0) =~= Seq::<char>::empty());
    if k > 0 {
        boundaries_are_ordered(line, 0, k);
    }
    if k < line.len() {
        boundaries_are_ordered(line, k, line.len() as int);
    }
}

/// Whether a key changes the text, where it finds anything to change.
pub open spec fn is_edit(key: KeyEvent) -> bool {
    match key.code {
        KeyCode::Char(c) => !key.ctrl || c == 'd' || c == 'k',
        KeyCode::Enter | KeyCode::Tab | KeyCode::BackTab | KeyCode::Backspace
        | KeyCode::Delete => true,
        _ => false,
    }
}

/// Control and Z takes back what a key did to the text after a pause; control and Y
/// does it again.
#[verifier::rlimit(60)]
pub proof fn undo_key_takes_back_an_edit(
    v: EditorView,
    key: KeyEvent,
    undo: KeyEvent,
    redo: KeyEvent,
    now: u64,
    then: u64,
    later: u64,
)
    requires
        key.press,
        is_edit(key),
        undo.press && undo.ctrl && undo.code == KeyCode::Char('z'),
        redo.press && redo.ctrl && redo.code == KeyCode::Char('y'),
        v.prompt is None,
        v.key_step(key, now).0.lines != v.lines,
        v.undo.len() == 0 || v.last_edit is None || (v.last_edit->0 < now && now - v.last_edit->0
            >= 600_000_000),
    ensures
        ({
            let w = v.key_step(key, now).0;
            let u = w.key_step(undo, then).0;
            let r = u.key_step(redo, later).0;
            &&& u.lines == v.lines
            &&& u.row == v.row
            &&& u.col == v.col
            &&& r.lines == w.lines
            &&& r.row == w.row
            &&& r.col == w.col
        }),
{
    lemma_edit_is_remembered(v, key, now);
    let w = v.key_step(key, now).0;
    lemma_undo_step(w, undo, then);
    lemma_redo_step(w.key_step(undo, then).0, redo, later);
}

proof fn lemma_edit_is_remembered(v: EditorView, key: KeyEvent, now: u64)
    requires
        key.press,
        is_edit(key),
        v.prompt is None,
        v.key_step(key, now).0.lines != v.lines,
        !v.batched(now),
    ensures
        v.key_step(key, now).0.undo.len() > 0,
        v.key_step(key, now).0.undo.last() == v.snapshot(),
        v.key_step(key, now).0.prompt is None,
{
    let all = v.undo.push(v.snapshot());
    assert(v.remembered(now).undo.last() == all.last());
}

proof fn lemma_undo_step(w: EditorView, key: KeyEvent, now: u64)
    requires
        key.press && key.ctrl && key.code == KeyCode::Char('z'),
        w.prompt is None,
        w.undo.len() > 0,
    ensures
        ({
            let u = w.key_step(key, now).0;
            &&& u.lines == w.undo.last().lines
            &&& u.row == w.undo.last().row
            &&& u.col == w.undo.last().col
            &&& u.redo.len() > 0
            &&& u.redo.last() == w.snapshot()
            &&& u.prompt is None
        }),
{
}

proof fn lemma_redo_step(u: EditorView, key: KeyEvent, now: u64)
    requires
        key.press && key.ctrl && key.code == KeyCode::Char('y'),
        u.prompt is None,
        u.redo.len() > 0,
    ensures
        ({
            let r = u.key_step(key, now).0;
            &&& r.lines == u.redo.last().lines
            &&& r.row == u.redo.last().row
            &&& r.col == u.redo.last().col
        }),
{
}

/// With nothing to take back or to do again, those keys leave the text alone.
pub proof fn undo_needs_a_step(v: EditorView, key: KeyEvent, now: u64)
    requires
        key.press,
        key.ctrl,
        v.prompt is None,
        (key.code == KeyCode::Char('z') && v.undo.len() == 0) || (key.code == KeyCode::Char('y')
            && v.redo.len() == 0),
    ensures
        v.key_step(key, now).0 == (EditorView { prompt: v.key_step(key, now).0.prompt, ..v }),
        v.key_step(key, now).0.prompt is Some,
{
}

} // verus!
