//! The editor on ASCII text, where every byte is a character.

use vstd::prelude::*;
use vstd::utf8::{decode_utf8, pop_first_scalar, valid_first_scalar, valid_utf8};

use crate::bytes::{byte_len, char_index, on_boundary, prefix_ends_on_boundary};
use crate::editor::columns::{
    chars_started, next_offset, previous_offset, started_at_boundary, words_lie_in_text,
};
use crate::editor::edit::{lemma_history, lemma_leading};
use crate::editor::{
    cursor_in_text, dedent_len, indent_len, EditorView, SnapshotView, MAX_UNDO,
};
use crate::keys::{KeyCode, KeyEvent};

verus! {

/// Characters of one byte only.
pub open spec fn ascii(s: Seq<char>) -> bool {
    forall|i: int| 0 <= i < s.len() ==> (#[trigger] s[i]) as u32 <= 0x7f
}

/// Lines of such characters.
pub open spec fn ascii_lines(lines: Seq<Seq<char>>) -> bool {
    forall|i: int| 0 <= i < lines.len() ==> ascii(#[trigger] lines[i])
}

/// States with such lines.
pub open spec fn ascii_history(s: Seq<SnapshotView>) -> bool {
    forall|i: int| 0 <= i < s.len() ==> ascii_lines((#[trigger] s[i]).lines)
}

/// Bytes that are ASCII characters.
pub open spec fn ascii_bytes(b: Seq<u8>) -> bool {
    forall|i: int| 0 <= i < b.len() ==> (#[trigger] b[i]) <= 0x7f
}

/// A key that types no other character than an ASCII one.
pub open spec fn ascii_key(key: KeyEvent) -> bool {
    key.code matches KeyCode::Char(c) ==> c as u32 <= 0x7f
}

impl EditorView {
    /// Whether the text is ASCII, now and in every state to go back to.
    pub open spec fn ascii(self) -> bool {
        &&& ascii_lines(self.lines)
        &&& ascii_history(self.undo)
        &&& ascii_history(self.redo)
    }

    /// After keys, each pressed at its time.
    pub open spec fn keys_pressed(self, keys: Seq<(KeyEvent, u64)>) -> EditorView
        decreases keys.len(),
    {
        if keys.len() == 0 {
            self
        } else {
            self.keys_pressed(keys.drop_last()).key_step(keys.last().0, keys.last().1).0
        }
    }
}

/// An ASCII text has as many bytes as characters, and each of its offsets falls
/// between characters.
pub proof fn offsets_are_boundaries(s: Seq<char>, n: nat)
    requires
        ascii(s),
        n <= s.len(),
    ensures
        byte_len(s) == s.len(),
        char_index(s, n) == n,
        on_boundary(s, n),
        chars_started(s, n) == n,
{
    lemma_len(s);
    assert(ascii(s.take(n as int)));
    lemma_len(s.take(n as int));
    prefix_ends_on_boundary(s, n as int);
    started_at_boundary(s, n);
}

proof fn lemma_len(s: Seq<char>)
    requires
        ascii(s),
    ensures
        byte_len(s) == s.len(),
    decreases s.len(),
{
    if s.len() > 0 {
        assert(s[0] as u32 <= 0x7f);
        assert forall|i: int| 0 <= i < s.skip(1).len() implies (#[trigger] s.skip(1)[i]) as u32
            <= 0x7f by {
            assert(s.skip(1)[i] == s[i + 1]);
        }
        lemma_len(s.skip(1));
    }
}

proof fn lemma_ascii_add(a: Seq<char>, b: Seq<char>)
    requires
        ascii(a),
        ascii(b),
    ensures
        ascii(a + b),
{
    assert forall|i: int| 0 <= i < (a + b).len() implies (#[trigger] (a + b)[i]) as u32 <= 0x7f by {
        if i < a.len() {
            assert((a + b)[i] == a[i]);
        } else {
            assert((a + b)[i] == b[i - a.len()]);
        }
    }
}

proof fn lemma_ascii_part(s: Seq<char>, from: int, to: int)
    requires
        ascii(s),
        0 <= from <= to <= s.len(),
    ensures
        ascii(s.subrange(from, to)),
{
    assert forall|i: int| 0 <= i < to - from implies (#[trigger] s.subrange(from, to)[i]) as u32
        <= 0x7f by {
        assert(s.subrange(from, to)[i] == s[from + i]);
    }
}

/// Parts of an ASCII text are ASCII.
proof fn lemma_ascii_parts(s: Seq<char>, k: int)
    requires
        ascii(s),
        0 <= k <= s.len(),
    ensures
        ascii(s.take(k)),
        ascii(s.skip(k)),
{
    lemma_ascii_part(s, 0, k);
    lemma_ascii_part(s, k, s.len() as int);
    assert(s.take(k) =~= s.subrange(0, k));
    assert(s.skip(k) =~= s.subrange(k, s.len() as int));
}

proof fn lemma_lines_update(lines: Seq<Seq<char>>, i: int, line: Seq<char>)
    requires
        ascii_lines(lines),
        ascii(line),
        0 <= i < lines.len(),
    ensures
        ascii_lines(lines.update(i, line)),
{
}

proof fn lemma_lines_insert(lines: Seq<Seq<char>>, i: int, line: Seq<char>)
    requires
        ascii_lines(lines),
        ascii(line),
        0 <= i <= lines.len(),
    ensures
        ascii_lines(lines.insert(i, line)),
{
    let t = lines.insert(i, line);
    assert forall|j: int| 0 <= j < t.len() implies ascii(#[trigger] t[j]) by {
        if j < i {
            assert(t[j] == lines[j]);
        } else if j > i {
            assert(t[j] == lines[j - 1]);
        }
    }
}

proof fn lemma_lines_remove(lines: Seq<Seq<char>>, i: int)
    requires
        ascii_lines(lines),
        0 <= i < lines.len(),
    ensures
        ascii_lines(lines.remove(i)),
{
    let t = lines.remove(i);
    assert forall|j: int| 0 <= j < t.len() implies ascii(#[trigger] t[j]) by {
        if j < i {
            assert(t[j] == lines[j]);
        } else {
            assert(t[j] == lines[j + 1]);
        }
    }
}

/// A well-formed editor with ASCII text.
spec fn sound(v: EditorView) -> bool {
    v.wf() && v.ascii()
}

/// Other text in place of the first.
proof fn lemma_edited(v: EditorView, now: u64, lines: Seq<Seq<char>>, row: nat, col: nat)
    requires
        sound(v),
        ascii_lines(lines),
        cursor_in_text(lines, row, col),
    ensures
        sound(v.remembered(now).edited(lines, row, col)),
        sound(v.remembered(now).edited(lines, row, col).scrolled()),
{
    let w = v.remembered(now);
    if !v.batched(now) {
        let all = v.undo.push(v.snapshot());
        assert forall|i: int| 0 <= i < w.undo.len() implies cursor_in_text(
            (#[trigger] w.undo[i]).lines,
            w.undo[i].row,
            w.undo[i].col,
        ) && ascii_lines(w.undo[i].lines) by {
            let j = if all.len() > MAX_UNDO {
                i + 1
            } else {
                i
            };
            assert(w.undo[i] == all[j]);
            if j < v.undo.len() {
                assert(all[j] == v.undo[j]);
            }
        }
    }
}

proof fn lemma_inserted(v: EditorView, s: Seq<char>, now: u64)
    requires
        sound(v),
        ascii(s),
    ensures
        sound(v.inserted(s, now)),
{
    let l = v.line();
    lemma_len(l);
    offsets_are_boundaries(l, v.col);
    lemma_ascii_parts(l, v.col as int);
    let a = l.take(v.col as int);
    let b = l.skip(v.col as int);
    lemma_ascii_add(a, s);
    lemma_ascii_add(a + s, b);
    lemma_len(s);
    lemma_len(a + s + b);
    lemma_lines_update(v.lines, v.row as int, a + s + b);
    lemma_edited(
        v,
        now,
        v.lines.update(v.row as int, a + s + b),
        v.row,
        v.col + byte_len(s),
    );
}

proof fn lemma_indent(s: Seq<char>)
    ensures
        indent_len(s) <= s.len(),
    decreases s.len(),
{
    if s.len() > 0 {
        lemma_indent(s.skip(1));
    }
}

proof fn lemma_split(v: EditorView, now: u64)
    requires
        sound(v),
    ensures
        sound(v.line_split(now)),
{
    let l = v.line();
    lemma_len(l);
    offsets_are_boundaries(l, v.col);
    lemma_ascii_parts(l, v.col as int);
    let head = l.take(v.col as int);
    let rest = l.skip(v.col as int);
    lemma_indent(head);
    lemma_ascii_parts(head, indent_len(head) as int);
    let indent = head.take(indent_len(head) as int);
    lemma_ascii_add(indent, rest);
    lemma_len(indent);
    lemma_len(indent + rest);
    let first = v.lines.update(v.row as int, head);
    lemma_lines_update(v.lines, v.row as int, head);
    lemma_lines_insert(first, v.row as int + 1, indent + rest);
    let all = first.insert(v.row as int + 1, indent + rest);
    assert(all[v.row as int + 1] == indent + rest);
    lemma_edited(v, now, all, v.row + 1, byte_len(indent));
}

proof fn lemma_backspaced(v: EditorView, now: u64)
    requires
        sound(v),
    ensures
        sound(v.backspaced(now)),
{
    let l = v.line();
    lemma_len(l);
    if v.col > 0 {
        let k = v.col as int;
        offsets_are_boundaries(l, v.col);
        lemma_ascii_parts(l, k - 1);
        lemma_ascii_parts(l, k);
        lemma_len(l.take(k - 1));
        lemma_ascii_add(l.take(k - 1), l.skip(k));
        let t = l.remove(k - 1);
        assert(t =~= l.take(k - 1) + l.skip(k));
        lemma_len(t);
        lemma_lines_update(v.lines, v.row as int, t);
        lemma_edited(
            v,
            now,
            v.lines.update(v.row as int, t),
            v.row,
            previous_offset(l, v.col),
        );
    } else if v.row > 0 {
        let above = v.lines[v.row - 1];
        lemma_len(above);
        lemma_ascii_add(above, l);
        lemma_len(above + l);
        lemma_lines_remove(v.lines, v.row as int);
        let rest = v.lines.remove(v.row as int);
        lemma_lines_update(rest, v.row - 1, above + l);
        lemma_edited(
            v,
            now,
            rest.update(v.row - 1, above + l),
            (v.row - 1) as nat,
            byte_len(above),
        );
    }
}

proof fn lemma_deleted(v: EditorView, now: u64)
    requires
        sound(v),
    ensures
        sound(v.deleted(now)),
{
    let l = v.line();
    lemma_len(l);
    if v.col < byte_len(l) {
        let k = v.col as int;
        offsets_are_boundaries(l, v.col);
        lemma_ascii_parts(l, k);
        lemma_ascii_parts(l, k + 1);
        lemma_ascii_add(l.take(k), l.skip(k + 1));
        let t = l.remove(k);
        assert(t =~= l.take(k) + l.skip(k + 1));
        lemma_len(t);
        lemma_lines_update(v.lines, v.row as int, t);
        lemma_edited(v, now, v.lines.update(v.row as int, t), v.row, v.col);
    } else if v.row + 1 < v.lines.len() {
        let below = v.lines[v.row as int + 1];
        lemma_ascii_add(l, below);
        lemma_len(l + below);
        lemma_lines_remove(v.lines, v.row as int + 1);
        let rest = v.lines.remove(v.row as int + 1);
        lemma_lines_update(rest, v.row as int, l + below);
        lemma_edited(v, now, rest.update(v.row as int, l + below), v.row, v.col);
    }
}

proof fn lemma_duplicated(v: EditorView, now: u64)
    requires
        sound(v),
    ensures
        sound(v.duplicated(now)),
{
    let t = v.lines.insert(v.row as int + 1, v.line());
    lemma_lines_insert(v.lines, v.row as int + 1, v.line());
    assert(t[v.row as int + 1] == v.line());
    lemma_edited(v, now, t, v.row + 1, v.col);
}

proof fn lemma_killed(v: EditorView, now: u64)
    requires
        sound(v),
    ensures
        sound(v.killed(now)),
{
    if v.lines.len() == 1 {
        let t = seq![Seq::<char>::empty()];
        assert(ascii(t[0]));
        lemma_edited(v, now, t, 0, 0);
    } else {
        let t = v.lines.remove(v.row as int);
        lemma_lines_remove(v.lines, v.row as int);
        lemma_edited(
            v,
            now,
            t,
            crate::editor::min_nat(v.row, (v.lines.len() - 2) as nat),
            0,
        );
    }
}

proof fn lemma_dedented(v: EditorView, now: u64)
    requires
        sound(v),
    ensures
        sound(v.dedented(now)),
{
    let l = v.line();
    let n = dedent_len(l);
    lemma_leading(l, 4);
    lemma_len(l);
    lemma_ascii_parts(l, n as int);
    lemma_len(l.skip(n as int));
    let t = v.lines.update(v.row as int, l.skip(n as int));
    lemma_lines_update(v.lines, v.row as int, l.skip(n as int));
    lemma_edited(v, now, t, v.row, crate::editor::minus_nat(v.col, n));
}

proof fn lemma_history_moves(v: EditorView)
    requires
        sound(v),
    ensures
        sound(v.undone()),
        sound(v.redone()),
{
    let s = v.snapshot();
    if v.undo.len() > 0 {
        lemma_history(v.undo, v.redo, s);
        lemma_ascii_history(v.undo, v.redo, s);
    }
    if v.redo.len() > 0 {
        lemma_history(v.redo, v.undo, s);
        lemma_ascii_history(v.redo, v.undo, s);
    }
}

proof fn lemma_ascii_history(from: Seq<SnapshotView>, to: Seq<SnapshotView>, s: SnapshotView)
    requires
        from.len() > 0,
        ascii_history(from),
        ascii_history(to),
        ascii_lines(s.lines),
    ensures
        ascii_history(from.drop_last()),
        ascii_history(to.push(s)),
        ascii_lines(from.last().lines),
{
    assert(from.last() == from[from.len() - 1]);
    assert forall|i: int| 0 <= i < from.drop_last().len() implies ascii_lines(
        (#[trigger] from.drop_last()[i]).lines,
    ) by {
        assert(from.drop_last()[i] == from[i]);
    }
    assert forall|i: int| 0 <= i < to.push(s).len() implies ascii_lines(
        (#[trigger] to.push(s)[i]).lines,
    ) by {
        if i < to.len() {
            assert(to.push(s)[i] == to[i]);
        }
    }
}

proof fn lemma_moved(v: EditorView)
    requires
        sound(v),
    ensures
        sound(v.moved_left()),
        sound(v.moved_right()),
        sound(v.moved_up()),
        sound(v.moved_down()),
        sound(v.moved_word(true)),
        sound(v.moved_word(false)),
        sound(v.paged_up()),
        sound(v.paged_down()),
{
    let l = v.line();
    lemma_len(l);
    offsets_are_boundaries(l, v.col);
    if v.col > 0 {
        lemma_ascii_parts(l, v.col - 1);
        lemma_len(l.take(v.col - 1));
    }
    if v.col < l.len() {
        lemma_ascii_parts(l, v.col as int + 1);
        lemma_len(l.take(v.col as int + 1));
        assert(next_offset(l, v.col) == v.col + 1);
    }
    words_lie_in_text(v.lines, v.row, v.col);
}

proof fn lemma_plain(v: EditorView, key: KeyEvent, now: u64)
    requires
        sound(v),
        v.prompt is None,
        ascii_key(key),
    ensures
        sound(v.plain_step(key, now).0),
{
    match key.code {
        KeyCode::Backspace => lemma_backspaced(v, now),
        KeyCode::Delete => lemma_deleted(v, now),
        KeyCode::Enter => lemma_split(v, now),
        KeyCode::Tab => {
            reveal_strlit("    ");
            lemma_inserted(v, "    "@, now);
        },
        KeyCode::BackTab => lemma_dedented(v, now),
        KeyCode::Char(c) => {
            if !key.ctrl {
                assert(ascii(seq![c]));
                lemma_inserted(v, seq![c], now);
            } else if c == 'z' || c == 'y' {
                lemma_history_moves(v);
            } else if c == 'd' {
                lemma_duplicated(v, now);
            } else if c == 'k' {
                lemma_killed(v, now);
            }
        },
        KeyCode::Left | KeyCode::Right | KeyCode::Up | KeyCode::Down | KeyCode::PageUp
        | KeyCode::PageDown => lemma_moved(v),
        _ => {},
    }
}

/// On ASCII text the cursor always stands between characters, and a key that
/// types ASCII keeps the cursor in the text, and the text ASCII.
pub proof fn ascii_text_stays_ascii(v: EditorView, key: KeyEvent, now: u64)
    requires
        v.wf(),
        v.ascii(),
        ascii_key(key),
    ensures
        v.between_chars(),
        v.key_step(key, now).0.wf(),
        v.key_step(key, now).0.ascii(),
{
    lemma_len(v.line());
    offsets_are_boundaries(v.line(), v.col);
    if key.press {
        match v.prompt {
            Some(p) => {
                assert(sound(v.prompt_step(p, key).0));
            },
            None => lemma_plain(v, key, now),
        }
    }
}

/// Whatever keys that type ASCII are pressed in an ASCII text, the cursor stays
/// in the text and between characters, so that every key can be handled.
pub proof fn keys_keep_cursor_in_text(v: EditorView, keys: Seq<(KeyEvent, u64)>)
    requires
        v.wf(),
        v.ascii(),
        forall|i: int| 0 <= i < keys.len() ==> ascii_key((#[trigger] keys[i]).0),
    ensures
        v.keys_pressed(keys).wf(),
        v.keys_pressed(keys).ascii(),
        v.keys_pressed(keys).between_chars(),
        v.keys_pressed(keys).lines.len() >= 1,
        cursor_in_text(
            v.keys_pressed(keys).lines,
            v.keys_pressed(keys).row,
            v.keys_pressed(keys).col,
        ),
    decreases keys.len(),
{
    if keys.len() > 0 {
        let d = keys.drop_last();
        assert forall|i: int| 0 <= i < d.len() implies ascii_key((#[trigger] d[i]).0) by {
            assert(d[i] == keys[i]);
        }
        assert(ascii_key(keys[keys.len() - 1].0));
        keys_keep_cursor_in_text(v, d);
        ascii_text_stays_ascii(v.keys_pressed(d), keys.last().0, keys.last().1);
    }
    let w = v.keys_pressed(keys);
    lemma_len(w.line());
    offsets_are_boundaries(w.line(), w.col);
}

/// ASCII bytes are UTF-8, and what they encode is ASCII.
pub proof fn ascii_bytes_are_ascii_text(b: Seq<u8>)
    requires
        ascii_bytes(b),
    ensures
        valid_utf8(b),
        ascii(decode_utf8(b)),
        decode_utf8(b).len() == b.len(),
    decreases b.len(),
{
    if b.len() > 0 {
        let x = b[0];
        assert(x <= 0x7f);
        assert((x & 0x7f) as u32 == x as u32) by (bit_vector)
            requires
                x <= 0x7f,
        ;
        assert(valid_first_scalar(b));
        let rest = pop_first_scalar(b);
        assert(rest =~= b.skip(1));
        assert forall|i: int| 0 <= i < rest.len() implies (#[trigger] rest[i]) <= 0x7f by {
            assert(rest[i] == b[i + 1]);
        }
        ascii_bytes_are_ascii_text(rest);
        let first = seq![(x as u32) as char];
        assert(ascii(first));
        assert(decode_utf8(b) =~= first + decode_utf8(rest));
        lemma_ascii_add(first, decode_utf8(rest));
    }
}

} // verus!
