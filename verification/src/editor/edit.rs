//! Changing the text, and undoing it.

use vstd::arithmetic::power::{lemma_pow1, lemma_pow_adds, pow};
use vstd::prelude::*;

use crate::bytes::{
    after, before, byte_len, byte_len_adds, byte_len_of_one, char_index, char_index_is_greatest,
    length, locate, on_boundary, prefix_ends_on_boundary,
};
use crate::editor::columns::{
    display_col_of, next_word, previous, previous_offset, previous_word, started_at_boundary,
};
use crate::editor::{
    cursor_in_text, cursors_in_text, dedent_len, indent_len, leading_blanks, snapshot_views, Editor,
    EditorPrompt, EditorView, Snapshot, SnapshotView, MAX_UNDO, UNDO_BATCH_NS,
};
use crate::text::{
    chars_of, clone_texts, number, push_char, tail_chars, take_chars, text_between, texts,
};

verus! {

/// A line is replaced.
fn set_text(lines: &mut Vec<String>, row: usize, s: String)
    requires
        row < old(lines)@.len(),
    ensures
        texts(final(lines)@) == texts(old(lines)@).update(row as int, s@),
        final(lines)@.len() == old(lines)@.len(),
{
    lines.set(row, s);
    assert(texts(lines@) =~= texts(old(lines)@).update(row as int, s@));
}

/// A line is added before the one at `row`.
fn insert_text(lines: &mut Vec<String>, row: usize, s: String)
    requires
        row <= old(lines)@.len(),
    ensures
        texts(final(lines)@) == texts(old(lines)@).insert(row as int, s@),
        final(lines)@.len() == old(lines)@.len() + 1,
{
    lines.insert(row, s);
    assert(texts(lines@) =~= texts(old(lines)@).insert(row as int, s@));
}

/// A line is taken out.
fn remove_text(lines: &mut Vec<String>, row: usize) -> (r: String)
    requires
        row < old(lines)@.len(),
    ensures
        texts(final(lines)@) == texts(old(lines)@).remove(row as int),
        r@ == texts(old(lines)@)[row as int],
        final(lines)@.len() == old(lines)@.len() - 1,
{
    let r = lines.remove(row);
    assert(texts(lines@) =~= texts(old(lines)@).remove(row as int));
    r
}

/// The parts of a line before and after a byte offset.
fn split_text(s: &str, n: usize) -> (r: (String, String))
    ensures
        r.0@ == before(s@, n as nat),
        r.1@ == after(s@, n as nat),
{
    let (k, _) = locate(s, n);
    let chars = chars_of(s);
    let a = text_between(&chars, 0, k);
    let b = text_between(&chars, k, chars.len());
    assert(a@ =~= s@.take(k as int));
    assert(b@ =~= s@.skip(k as int));
    (a, b)
}

/// A line without one of its characters.
fn without_char(s: &str, k: usize) -> (r: String)
    requires
        k < s@.len(),
    ensures
        r@ == s@.remove(k as int),
{
    let chars = chars_of(s);
    let total: usize = chars.len();
    let mut a = text_between(&chars, 0, k);
    let b = text_between(&chars, k + 1, total);
    a.append(&b);
    assert(a@ =~= s@.remove(k as int));
    a
}

/// The byte length of a line with a text inserted at a boundary.
proof fn lemma_inserted_len(line: Seq<char>, n: nat, s: Seq<char>)
    requires
        on_boundary(line, n),
    ensures
        n + byte_len(s) <= byte_len(before(line, n) + s + after(line, n)),
{
    char_index_is_greatest(line, n);
    byte_len_adds(before(line, n), s);
    byte_len_adds(before(line, n) + s, after(line, n));
}

/// The byte length of a line without one of its characters.
proof fn lemma_removed_len(line: Seq<char>, k: int)
    requires
        0 <= k < line.len(),
    ensures
        byte_len(line.take(k)) <= byte_len(line.remove(k)),
{
    assert(line.remove(k) =~= line.take(k) + line.skip(k + 1));
    byte_len_adds(line.take(k), line.skip(k + 1));
}

/// The leading blanks of a line take one byte each.
proof fn lemma_skipped_len(line: Seq<char>, n: nat)
    requires
        n <= line.len(),
        forall|i: int| 0 <= i < n ==> (#[trigger] line[i]) == ' ' || line[i] == '\t',
    ensures
        byte_len(line) == n + byte_len(line.skip(n as int)),
        byte_len(line.take(n as int)) == n,
    decreases n,
{
    if n == 0 {
        assert(line.skip(0) =~= line);
        assert(line.take(0) =~= Seq::<char>::empty());
    } else {
        let m = (n - 1) as nat;
        assert forall|i: int| 0 <= i < m implies (#[trigger] line.skip(1)[i]) == ' ' || line.skip(
            1,
        )[i] == '\t' by {
            assert(line.skip(1)[i] == line[i + 1]);
        }
        lemma_skipped_len(line.skip(1), m);
        assert(line.skip(1).skip(m as int) =~= line.skip(n as int));
        assert(line.take(n as int).skip(1) =~= line.skip(1).take(m as int));
        assert(line[0] == ' ' || line[0] == '\t');
    }
}

pub(crate) proof fn lemma_leading(s: Seq<char>, n: nat)
    ensures
        leading_blanks(s, n) <= s.len(),
        leading_blanks(s, n) <= n,
        forall|i: int| 0 <= i < leading_blanks(s, n) ==> (#[trigger] s[i]) == ' ',
    decreases n,
{
    if n > 0 && s.len() > 0 && s[0] == ' ' {
        lemma_leading(s.skip(1), (n - 1) as nat);
        assert forall|i: int| 0 <= i < leading_blanks(s, n) implies (#[trigger] s[i]) == ' ' by {
            if i > 0 {
                assert(s.skip(1)[i - 1] == s[i]);
            }
        }
    }
}

fn indentation(s: &str) -> (r: usize)
    ensures
        r == indent_len(s@),
        r <= s@.len(),
{
    let chars = chars_of(s);
    let mut k: usize = 0;
    assert(s@.skip(0) =~= s@);
    while k < chars.len() && (chars[k] == ' ' || chars[k] == '\t')
        invariant
            k <= chars@.len(),
            chars@ == s@,
            indent_len(s@) == k + indent_len(s@.skip(k as int)),
        decreases chars@.len() - k,
    {
        assert(s@.skip(k as int).skip(1) =~= s@.skip(k + 1));
        k = k + 1;
    }
    k
}

fn dedentation(s: &str) -> (r: usize)
    ensures
        r == dedent_len(s@),
        r <= s@.len(),
        forall|i: int| 0 <= i < r ==> (#[trigger] s@[i]) == ' ' || s@[i] == '\t',
{
    let chars = chars_of(s);
    let mut k: usize = 0;
    assert(s@.skip(0) =~= s@);
    while k < 4 && k < chars.len() && chars[k] == ' '
        invariant
            k <= chars@.len(),
            k <= 4,
            chars@ == s@,
            leading_blanks(s@, 4) == k + leading_blanks(s@.skip(k as int), (4 - k) as nat),
        decreases 4 - k,
    {
        assert(s@.skip(k as int).skip(1) =~= s@.skip(k + 1));
        k = k + 1;
    }
    proof {
        lemma_leading(s@, 4);
    }
    if k == 0 && chars.len() > 0 && chars[0] == '\t' {
        1
    } else {
        k
    }
}

/// The number of digits of a number.
fn digits(n: usize) -> (r: usize)
    ensures
        r == crate::text::decimal_text(n as nat).len(),
        r <= 20,
{
    let s = number(n as u128, 10);
    proof {
        lemma_ten_to_twenty();
        lemma_digits(n as nat, 20);
    }
    s.as_str().unicode_len()
}

proof fn lemma_ten_to_twenty()
    ensures
        pow(10, 20) == 100_000_000_000_000_000_000,
{
    reveal_with_fuel(pow, 6);
    let a = pow(10, 5);
    let b = pow(10, 10);
    let c = pow(10, 20);
    assert(a == 100_000);
    lemma_pow_adds(10, 5, 5);
    lemma_pow_adds(10, 10, 10);
    assert(b == 10_000_000_000) by (nonlinear_arith)
        requires
            a == 100_000,
            b == a * a,
    ;
    assert(c == 100_000_000_000_000_000_000) by (nonlinear_arith)
        requires
            b == 10_000_000_000,
            c == b * b,
    ;
}

proof fn lemma_digits(n: nat, k: nat)
    requires
        n < pow(10, k),
        k >= 1,
    ensures
        crate::text::number_text(n, 10).len() <= k,
    decreases k,
{
    if n >= 10 {
        lemma_pow1(10);
        if k == 1 {
            assert(false);
        }
        lemma_pow_adds(10, 1, (k - 1) as nat);
        assert(n / 10 < pow(10, (k - 1) as nat)) by (nonlinear_arith)
            requires
                n < pow(10, k),
                pow(10, k) == 10 * pow(
                    10,
                    (k - 1) as nat,
                ),
        ;
        lemma_digits(n / 10, (k - 1) as nat);
    }
}

impl Editor {
    /// The width of the line numbers and the gap behind them.
    pub fn gutter_w(&self) -> (r: usize)
        ensures
            r == self@.gutter(),
            3 <= r <= 22,
    {
        let max: usize = if self.lines.len() == 0 {
            1
        } else {
            self.lines.len()
        };
        assert(self.lines@.len() == self@.lines.len());
        digits(max) + 2
    }
}

/// A copy of the current state.
fn snapshot_of(ed: &Editor) -> (r: Snapshot)
    ensures
        r@ == ed@.snapshot(),
{
    Snapshot { lines: clone_texts(&ed.lines), cursor: ed.cursor }
}

fn push_state(stack: &mut Vec<Snapshot>, s: Snapshot)
    ensures
        snapshot_views(final(stack)@) == snapshot_views(old(stack)@).push(s@),
{
    stack.push(s);
    assert(snapshot_views(stack@) =~= snapshot_views(old(stack)@).push(s@));
}

impl Editor {
    /// Shows a message.
    pub fn flash(&mut self, text: String)
        ensures
            final(self)@ == old(self)@.flashed(text@),
    {
        self.prompt = Some(EditorPrompt::Message { text });
        assert(self@ =~= old(self)@.flashed(text@));
    }

    /// Keeps the state before an edit at the time `now`.
    pub(crate) fn push_snapshot(&mut self, now: u64)
        requires
            old(self)@.wf(),
        ensures
            final(self)@ == old(self)@.remembered(now),
            final(self)@.wf(),
    {
        let ghost v = self@;
        if let Some(last) = self.last_edit_at {
            if (now <= last || now - last < UNDO_BATCH_NS) && self.undo_stack.len() > 0 {
                self.last_edit_at = Some(now);
                assert(self@ =~= v.remembered(now));
                return;
            }
        }
        assert(!v.batched(now));
        self.last_edit_at = Some(now);
        let s = snapshot_of(self);
        assert(s@ == v.snapshot());
        push_state(&mut self.undo_stack, s);
        let ghost all = v.undo.push(v.snapshot());
        assert(snapshot_views(self.undo_stack@) == all);
        if self.undo_stack.len() > MAX_UNDO {
            let _ = self.undo_stack.remove(0);
            assert(snapshot_views(self.undo_stack@) =~= all.skip(1));
        }
        self.redo_stack.clear();
        assert(snapshot_views(self.redo_stack@) =~= Seq::<SnapshotView>::empty());
        assert(self@ =~= v.remembered(now));
        assert forall|i: int| 0 <= i < self@.undo.len() implies cursor_in_text(
            (#[trigger] self@.undo[i]).lines,
            self@.undo[i].row,
            self@.undo[i].col,
        ) by {
            let j = if all.len() > MAX_UNDO {
                i + 1
            } else {
                i
            };
            assert(self@.undo[i] == all[j]);
            if j < v.undo.len() {
                assert(all[j] == v.undo[j]);
            }
        }
    }

    /// Undoes the last step.
    pub fn undo(&mut self)
        requires
            old(self)@.wf(),
        ensures
            final(self)@ == old(self)@.undone(),
            final(self)@.wf(),
    {
        let ghost v = self@;
        match self.undo_stack.pop() {
            Some(snap) => {
                assert(snap@ == v.undo[v.undo.len() - 1]);
                assert(snapshot_views(self.undo_stack@) =~= v.undo.drop_last());
                let s = snapshot_of(self);
                push_state(&mut self.redo_stack, s);
                self.lines = snap.lines;
                self.cursor = snap.cursor;
                self.modified = true;
                self.last_edit_at = None;
                assert(self@ =~= v.undone());
                proof {
                    lemma_history(v.undo, v.redo, v.snapshot());
                }
            },
            None => {
                assert(v.undo.len() == 0);
                assert(self@ =~= v);
                self.flash("nothing to undo".to_owned());
            },
        }
    }

    /// Does the last undone step again.
    pub fn redo(&mut self)
        requires
            old(self)@.wf(),
        ensures
            final(self)@ == old(self)@.redone(),
            final(self)@.wf(),
    {
        let ghost v = self@;
        match self.redo_stack.pop() {
            Some(snap) => {
                assert(snap@ == v.redo[v.redo.len() - 1]);
                assert(snapshot_views(self.redo_stack@) =~= v.redo.drop_last());
                let s = snapshot_of(self);
                push_state(&mut self.undo_stack, s);
                self.lines = snap.lines;
                self.cursor = snap.cursor;
                self.modified = true;
                self.last_edit_at = None;
                assert(self@ =~= v.redone());
                proof {
                    lemma_history(v.redo, v.undo, v.snapshot());
                }
            },
            None => {
                assert(v.redo.len() == 0);
                assert(self@ =~= v);
                self.flash("nothing to redo".to_owned());
            },
        }
    }

    /// Scrolls as far as needed to show the cursor.
    pub(crate) fn ensure_visible(&mut self)
        requires
            old(self)@.row < old(self)@.lines.len(),
        ensures
            final(self)@ == old(self)@.scrolled(),
            old(self)@.wf() ==> final(self)@.wf(),
    {
        let ghost v = self@;
        let h: usize = if self.last_size.1 <= 3 {
            1
        } else {
            (self.last_size.1 - 3) as usize
        };
        let row: usize = self.cursor.0;
        if row < self.scroll_row {
            self.scroll_row = row;
        } else if row - self.scroll_row >= h {
            self.scroll_row = row - (h - 1);
        }
        let gutter = self.gutter_w();
        let w: usize = if self.last_size.0 as usize <= gutter {
            1
        } else {
            self.last_size.0 as usize - gutter
        };
        let col: usize = display_col_of(&self.lines[row], self.cursor.1);
        assert(self.lines@[row as int]@ == v.line());
        if col < self.scroll_col {
            self.scroll_col = col;
        } else if col - self.scroll_col >= w {
            self.scroll_col = col - (w - 1);
        }
        assert(self@ =~= v.scrolled());
    }

    /// Inserts a text at the cursor.
    pub fn insert_str(&mut self, s: &str, now: u64)
        requires
            old(self)@.wf(),
            old(self)@.between_chars(),
        ensures
            final(self)@ == old(self)@.inserted(s@, now),
            final(self)@.wf(),
    {
        let ghost v = self@;
        self.push_snapshot(now);
        let (row, col) = self.cursor;
        let total: usize = self.lines.len();
        assert(total == texts(self.lines@).len());
        let (mut line, rest) = split_text(&self.lines[row], col);
        line.append(s);
        line.append(&rest);
        let ghost new = before(v.line(), v.col) + s@ + after(v.line(), v.col);
        assert(line@ =~= new);
        let len = length(&line);
        proof {
            lemma_inserted_len(v.line(), v.col, s@);
        }
        set_text(&mut self.lines, row, line);
        self.cursor = (row, col + length(s));
        self.modified = true;
        assert(self@ =~= v.remembered(now).edited(
            v.lines.update(v.row as int, new),
            v.row,
            v.col + byte_len(s@),
        ));
        self.ensure_visible();
    }

    /// Inserts a character at the cursor.
    pub fn insert_char(&mut self, c: char, now: u64)
        requires
            old(self)@.wf(),
            old(self)@.between_chars(),
        ensures
            final(self)@ == old(self)@.inserted(seq![c], now),
            final(self)@.wf(),
    {
        let mut s = String::new();
        push_char(&mut s, c);
        assert(s@ =~= seq![c]);
        self.insert_str(&s, now);
    }

    /// Breaks the line at the cursor.
    pub fn split_line(&mut self, now: u64)
        requires
            old(self)@.wf(),
            old(self)@.between_chars(),
        ensures
            final(self)@ == old(self)@.line_split(now),
            final(self)@.wf(),
    {
        let ghost v = self@;
        self.push_snapshot(now);
        let (row, col) = self.cursor;
        let total: usize = self.lines.len();
        assert(total == texts(self.lines@).len());
        let (head, rest) = split_text(&self.lines[row], col);
        let k = indentation(&head);
        let mut line = take_chars(&head, k);
        let ghost h = before(v.line(), v.col);
        let ghost indent = h.take(indent_len(h) as int);
        assert(line@ =~= indent);
        let len = length(&line);
        line.append(&rest);
        proof {
            byte_len_adds(indent, rest@);
        }
        set_text(&mut self.lines, row, head);
        insert_text(&mut self.lines, row + 1, line);
        self.cursor = (row + 1, len);
        self.modified = true;
        assert(self@ =~= v.remembered(now).edited(
            v.lines.update(v.row as int, h).insert(
                v.row as int + 1,
                indent + after(v.line(), v.col),
            ),
            v.row + 1,
            byte_len(indent),
        ));
        self.ensure_visible();
    }

    /// Takes out the character before the cursor.
    pub fn backspace(&mut self, now: u64)
        requires
            old(self)@.wf(),
            old(self)@.col > 0 ==> old(self)@.between_chars(),
        ensures
            final(self)@ == old(self)@.backspaced(now),
            final(self)@.wf(),
    {
        let ghost v = self@;
        let (row, col) = self.cursor;
        if col == 0 {
            if row == 0 {
                return;
            }
            self.push_snapshot(now);
            assert(self.lines@.len() == texts(self.lines@).len());
            let line = remove_text(&mut self.lines, row);
            assert(self.lines@[row - 1]@ == texts(self.lines@)[row - 1]);
            let mut above = self.lines[row - 1].clone();
            assert(above@ == v.lines[row - 1]);
            let len = length(&above);
            above.append(&line);
            proof {
                byte_len_adds(v.lines[row - 1], line@);
            }
            set_text(&mut self.lines, row - 1, above);
            self.cursor = (row - 1, len);
            self.modified = true;
            assert(self@ =~= v.backspaced(now));
            return;
        }
        self.push_snapshot(now);
        let (k, _) = locate(&self.lines[row], col);
        let to = previous(&self.lines[row], col);
        proof {
            started_at_boundary(v.line(), v.col);
            char_index_is_greatest(v.line(), v.col);
            if k == 0 {
                assert(v.line().take(0) =~= Seq::<char>::empty());
            }
            lemma_removed_len(v.line(), k - 1);
        }
        let line = without_char(&self.lines[row], k - 1);
        set_text(&mut self.lines, row, line);
        self.cursor = (row, to);
        self.modified = true;
        assert(self@ =~= v.remembered(now).edited(
            v.lines.update(v.row as int, v.line().remove(k - 1)),
            v.row,
            previous_offset(v.line(), v.col),
        ));
        self.ensure_visible();
    }

    /// Takes out the character at the cursor.
    pub fn delete_forward(&mut self, now: u64)
        requires
            old(self)@.wf(),
            old(self)@.col < byte_len(old(self)@.line()) ==> old(self)@.between_chars(),
        ensures
            final(self)@ == old(self)@.deleted(now),
            final(self)@.wf(),
    {
        let ghost v = self@;
        let (row, col) = self.cursor;
        assert(self.lines@.len() == v.lines.len());
        if col == length(&self.lines[row]) {
            if row == self.lines.len() - 1 {
                return;
            }
            self.push_snapshot(now);
            assert(self.lines@.len() == texts(self.lines@).len());
            let below = remove_text(&mut self.lines, row + 1);
            assert(self.lines@[row as int]@ == texts(self.lines@)[row as int]);
            let mut line = self.lines[row].clone();
            assert(line@ == v.line());
            line.append(&below);
            proof {
                byte_len_adds(v.line(), below@);
            }
            set_text(&mut self.lines, row, line);
            self.modified = true;
            assert(self@ =~= v.deleted(now));
            return;
        }
        self.push_snapshot(now);
        let (k, _) = locate(&self.lines[row], col);
        proof {
            char_index_is_greatest(v.line(), v.col);
            if k == v.line().len() {
                assert(v.line().take(k as int) =~= v.line());
            }
            lemma_removed_len(v.line(), k as int);
        }
        let line = without_char(&self.lines[row], k);
        set_text(&mut self.lines, row, line);
        self.modified = true;
        assert(self@ =~= v.deleted(now));
    }

    /// Repeats the line.
    pub fn duplicate_line(&mut self, now: u64)
        requires
            old(self)@.wf(),
        ensures
            final(self)@ == old(self)@.duplicated(now),
            final(self)@.wf(),
    {
        let ghost v = self@;
        self.push_snapshot(now);
        let (row, col) = self.cursor;
        let total: usize = self.lines.len();
        assert(total == texts(self.lines@).len());
        let copy = self.lines[row].clone();
        assert(copy@ == v.line());
        insert_text(&mut self.lines, row + 1, copy);
        self.cursor = (row + 1, col);
        self.modified = true;
        assert(self@ =~= v.remembered(now).edited(
            v.lines.insert(v.row as int + 1, v.line()),
            v.row + 1,
            v.col,
        ));
        self.ensure_visible();
    }

    /// Takes out the line.
    pub fn kill_line(&mut self, now: u64)
        requires
            old(self)@.wf(),
        ensures
            final(self)@ == old(self)@.killed(now),
            final(self)@.wf(),
    {
        let ghost v = self@;
        self.push_snapshot(now);
        let (row, _) = self.cursor;
        assert(self.lines@.len() == v.lines.len());
        if self.lines.len() == 1 {
            set_text(&mut self.lines, 0, String::new());
            self.cursor = (0, 0);
            self.modified = true;
            assert(texts(self.lines@) =~= seq![Seq::<char>::empty()]);
            assert(self@ =~= v.remembered(now).edited(seq![Seq::empty()], 0, 0));
        } else {
            let _ = remove_text(&mut self.lines, row);
            assert(self.lines@.len() == texts(self.lines@).len());
            let to: usize = if row >= self.lines.len() {
                self.lines.len() - 1
            } else {
                row
            };
            self.cursor = (to, 0);
            self.modified = true;
            assert(self@ =~= v.remembered(now).edited(
                v.lines.remove(v.row as int),
                crate::editor::min_nat(v.row, (v.lines.len() - 2) as nat),
                0,
            ));
        }
        self.ensure_visible();
    }

    /// Moves the line to the left by a tab of indentation.
    pub fn dedent_line(&mut self, now: u64)
        requires
            old(self)@.wf(),
        ensures
            final(self)@ == old(self)@.dedented(now),
            final(self)@.wf(),
    {
        let ghost v = self@;
        self.push_snapshot(now);
        let (row, col) = self.cursor;
        let total: usize = self.lines.len();
        assert(total == texts(self.lines@).len());
        let n = dedentation(&self.lines[row]);
        let len: usize = self.lines[row].as_str().unicode_len();
        let line = tail_chars(&self.lines[row], len - n);
        assert(line@ =~= v.line().skip(n as int));
        proof {
            lemma_skipped_len(v.line(), n as nat);
        }
        set_text(&mut self.lines, row, line);
        let to: usize = if col >= n {
            col - n
        } else {
            0
        };
        self.cursor = (row, to);
        if n > 0 {
            self.modified = true;
        }
        assert(self@ =~= v.dedented(now));
    }

    /// Moves the cursor to the next or the previous word.
    pub fn move_word(&mut self, forward: bool)
        requires
            old(self)@.wf(),
        ensures
            final(self)@ == old(self)@.moved_word(forward),
            final(self)@.wf(),
    {
        let ghost v = self@;
        let (row, col) = self.cursor;
        let to = if forward {
            next_word(&self.lines, row, col)
        } else {
            previous_word(&self.lines, row, col)
        };
        self.cursor = to;
        assert(self@ =~= v.at(to.0 as nat, to.1 as nat));
        self.ensure_visible();
    }

    /// Moves the cursor to another row.
    pub(crate) fn go_to_row(&mut self, row: usize)
        requires
            old(self)@.wf(),
            row < old(self)@.lines.len(),
        ensures
            final(self)@ == old(self)@.in_row(row as nat),
            final(self)@.wf(),
    {
        let ghost v = self@;
        let len = length(&self.lines[row]);
        assert(self.lines@[row as int]@ == v.lines[row as int]);
        let col: usize = if self.cursor.1 <= len {
            self.cursor.1
        } else {
            len
        };
        self.cursor = (row, col);
        assert(self@ =~= v.at(
            row as nat,
            crate::editor::min_nat(v.col, byte_len(v.lines[row as int])),
        ));
        self.ensure_visible();
    }

    /// Moves the cursor.
    pub(crate) fn go_to(&mut self, row: usize, col: usize)
        requires
            old(self)@.wf(),
            cursor_in_text(old(self)@.lines, row as nat, col as nat),
        ensures
            final(self)@ == old(self)@.at(row as nat, col as nat).scrolled(),
            final(self)@.wf(),
    {
        let ghost v = self@;
        self.cursor = (row, col);
        assert(self@ =~= v.at(row as nat, col as nat));
        self.ensure_visible();
    }

    /// Whether the cursor stands between two characters.
    pub fn cursor_between_chars(&self) -> (r: bool)
        requires
            self@.wf(),
        ensures
            r == self@.between_chars(),
    {
        let (row, col) = self.cursor;
        let (_, whole) = locate(&self.lines[row], col);
        assert(self.lines@[row as int]@ == self@.line());
        whole
    }
}

/// Taking a state from one stack and pushing another on the second keeps the
/// cursors in their texts.
pub(crate) proof fn lemma_history(from: Seq<SnapshotView>, to: Seq<SnapshotView>, s: SnapshotView)
    requires
        from.len() > 0,
        cursors_in_text(from),
        cursors_in_text(to),
        cursor_in_text(s.lines, s.row, s.col),
    ensures
        cursors_in_text(from.drop_last()),
        cursors_in_text(to.push(s)),
        cursor_in_text(from.last().lines, from.last().row, from.last().col),
{
    assert(from.last() == from[from.len() - 1]);
    let d = from.drop_last();
    assert forall|i: int| 0 <= i < d.len() implies cursor_in_text(
        (#[trigger] d[i]).lines,
        d[i].row,
        d[i].col,
    ) by {
        assert(d[i] == from[i]);
    }
    let p = to.push(s);
    assert forall|i: int| 0 <= i < p.len() implies cursor_in_text(
        (#[trigger] p[i]).lines,
        p[i].row,
        p[i].col,
    ) by {
        if i < to.len() {
            assert(p[i] == to[i]);
        }
    }
}

/// Undoing a step and doing it again brings back the text and the cursor, and
/// the steps that can be undone and redone.
pub proof fn redo_reverts_undo(v: EditorView)
    requires
        v.undo.len() > 0,
    ensures
        v.undone().redone().lines == v.lines,
        v.undone().redone().row == v.row,
        v.undone().redone().col == v.col,
        v.undone().redone().undo == v.undo,
        v.undone().redone().redo == v.redo,
{
    assert(v.redo.push(v.snapshot()).drop_last() =~= v.redo);
    let s = v.undo.last();
    assert(v.undone().snapshot() == s);
    assert(v.undo.drop_last().push(s) =~= v.undo);
}

/// Doing a step again and undoing it brings back the text and the cursor, and
/// the steps that can be undone and redone.
pub proof fn undo_reverts_redo(v: EditorView)
    requires
        v.redo.len() > 0,
    ensures
        v.redone().undone().lines == v.lines,
        v.redone().undone().row == v.row,
        v.redone().undone().col == v.col,
        v.redone().undone().undo == v.undo,
        v.redone().undone().redo == v.redo,
{
    assert(v.undo.push(v.snapshot()).drop_last() =~= v.undo);
    let s = v.redo.last();
    assert(v.redone().snapshot() == s);
    assert(v.redo.drop_last().push(s) =~= v.redo);
}

/// The first edit after a pause can be undone: undoing brings back the text and
/// the cursor that were there before it.
pub proof fn undo_reverts_edit(v: EditorView, now: u64, lines: Seq<Seq<char>>, row: nat, col: nat)
    requires
        !v.batched(now),
    ensures
        v.remembered(now).edited(lines, row, col).undone().lines == v.lines,
        v.remembered(now).edited(lines, row, col).undone().row == v.row,
        v.remembered(now).edited(lines, row, col).undone().col == v.col,
{
    let all = v.undo.push(v.snapshot());
    assert(v.remembered(now).undo.last() == all.last());
}

/// A change of the text.
pub enum Edit {
    Insert(Seq<char>),
    Split,
    Backspace,
    Delete,
    Duplicate,
    Kill,
    Dedent,
}

impl EditorView {
    /// After a change.
    pub open spec fn changed(self, e: Edit, now: u64) -> EditorView {
        match e {
            Edit::Insert(s) => self.inserted(s, now),
            Edit::Split => self.line_split(now),
            Edit::Backspace => self.backspaced(now),
            Edit::Delete => self.deleted(now),
            Edit::Duplicate => self.duplicated(now),
            Edit::Kill => self.killed(now),
            Edit::Dedent => self.dedented(now),
        }
    }

    /// Whether a change finds anything to do. A backspace at the start of the
    /// text does not, nor does a deletion at its end.
    pub open spec fn takes_effect(self, e: Edit) -> bool {
        match e {
            Edit::Backspace => self.col > 0 || self.row > 0,
            Edit::Delete => self.col != byte_len(self.line()) || self.row + 1 < self.lines.len(),
            _ => true,
        }
    }

    /// After changes, each made at its time.
    pub open spec fn changed_by(self, run: Seq<(Edit, u64)>) -> EditorView
        decreases run.len(),
    {
        if run.len() == 0 {
            self
        } else {
            self.changed(run[0].0, run[0].1).changed_by(run.skip(1))
        }
    }

    /// Whether every one of some changes that finds anything to do comes soon
    /// after the last such change.
    pub open spec fn goes_on(self, run: Seq<(Edit, u64)>) -> bool
        decreases run.len(),
    {
        run.len() == 0 || {
            let (e, now) = run[0];
            &&& self.takes_effect(e) ==> self.batched(now)
            &&& self.changed(e, now).goes_on(run.skip(1))
        }
    }

    /// Whether some changes are a rapid run: one finds something to do after a
    /// pause, and from there on each follows soon.
    pub open spec fn is_rapid(self, run: Seq<(Edit, u64)>) -> bool
        decreases run.len(),
    {
        run.len() > 0 && {
            let (e, now) = run[0];
            if self.takes_effect(e) {
                !self.batched(now) && self.changed(e, now).goes_on(run.skip(1))
            } else {
                self.is_rapid(run.skip(1))
            }
        }
    }
}

/// A change soon after another adds no step that can be undone, and one that
/// finds nothing to do changes nothing.
pub proof fn batched_edits_keep_history(v: EditorView, e: Edit, now: u64)
    ensures
        v.batched(now) ==> v.changed(e, now).undo == v.undo && v.changed(e, now).redo == v.redo,
        !v.takes_effect(e) ==> v.changed(e, now) == v,
        v.takes_effect(e) ==> v.changed(e, now).last_edit == Some(now),
{
}

proof fn lemma_run_keeps_history(v: EditorView, run: Seq<(Edit, u64)>)
    requires
        v.goes_on(run),
    ensures
        v.changed_by(run).undo == v.undo,
    decreases run.len(),
{
    if run.len() > 0 {
        let (e, now) = run[0];
        batched_edits_keep_history(v, e, now);
        lemma_run_keeps_history(v.changed(e, now), run.skip(1));
    }
}

/// Rapid changes are one step: undoing once after any run of them brings back
/// the text and the cursor that were there before the first.
pub proof fn rapid_edits_are_one_step(v: EditorView, run: Seq<(Edit, u64)>)
    requires
        v.is_rapid(run),
    ensures
        v.changed_by(run).undone().lines == v.lines,
        v.changed_by(run).undone().row == v.row,
        v.changed_by(run).undone().col == v.col,
    decreases run.len(),
{
    let (e, now) = run[0];
    batched_edits_keep_history(v, e, now);
    if v.takes_effect(e) {
        let w = v.changed(e, now);
        let all = v.undo.push(v.snapshot());
        assert(w.undo == v.remembered(now).undo);
        assert(w.undo.last() == all.last());
        lemma_run_keeps_history(w, run.skip(1));
    } else {
        rapid_edits_are_one_step(v, run.skip(1));
    }
}

/// From a file that was just opened, or a step that was just undone or done
/// again, changes of which each comes within the time of a step of the one
/// before are a rapid run, as long as all of them find something to do.
pub proof fn quick_edits_are_rapid(v: EditorView, run: Seq<(Edit, u64)>)
    requires
        run.len() > 0,
        v.last_edit is None,
        v.all_take_effect(run),
        forall|i: int|
            0 < i < run.len() ==> run[i - 1].1 <= (#[trigger] run[i]).1 < run[i - 1].1
                + UNDO_BATCH_NS,
    ensures
        v.is_rapid(run),
{
    let (e, now) = run[0];
    batched_edits_keep_history(v, e, now);
    let w = v.changed(e, now);
    let rest = run.skip(1);
    assert(w.undo == v.remembered(now).undo);
    if rest.len() > 0 {
        assert(rest[0] == run[1]);
    }
    assert forall|i: int| 0 < i < rest.len() implies rest[i - 1].1 <= (#[trigger] rest[i]).1
        < rest[i - 1].1 + UNDO_BATCH_NS by {
        assert(rest[i] == run[i + 1]);
        assert(rest[i - 1] == run[i]);
    }
    lemma_quick(w, rest, now);
}

proof fn lemma_quick(v: EditorView, run: Seq<(Edit, u64)>, last: u64)
    requires
        v.last_edit == Some(last),
        v.undo.len() > 0,
        v.all_take_effect(run),
        run.len() > 0 ==> last <= run[0].1 < last + UNDO_BATCH_NS,
        forall|i: int|
            0 < i < run.len() ==> run[i - 1].1 <= (#[trigger] run[i]).1 < run[i - 1].1
                + UNDO_BATCH_NS,
    ensures
        v.goes_on(run),
    decreases run.len(),
{
    if run.len() > 0 {
        let (e, now) = run[0];
        batched_edits_keep_history(v, e, now);
        let rest = run.skip(1);
        if rest.len() > 0 {
            assert(rest[0] == run[1]);
        }
        assert forall|i: int| 0 < i < rest.len() implies rest[i - 1].1 <= (#[trigger] rest[i]).1
            < rest[i - 1].1 + UNDO_BATCH_NS by {
            assert(rest[i] == run[i + 1]);
            assert(rest[i - 1] == run[i]);
        }
        lemma_quick(v.changed(e, now), rest, now);
    }
}

impl EditorView {
    /// Whether every one of some changes finds something to do.
    pub open spec fn all_take_effect(self, run: Seq<(Edit, u64)>) -> bool
        decreases run.len(),
    {
        run.len() == 0 || (self.takes_effect(run[0].0) && self.changed(
            run[0].0,
            run[0].1,
        ).all_take_effect(run.skip(1)))
    }
}

/// Scrolling keeps the cursor in the window, and changes nothing but the
/// window.
pub proof fn scrolling_shows_cursor(v: EditorView)
    ensures
        v.scrolled().scroll_row <= v.row < v.scrolled().scroll_row + v.rows_shown(),
        v.scrolled().scroll_col <= crate::editor::columns::column_of(v.line(), v.col)
            < v.scrolled().scroll_col + v.columns_shown(),
        v.scrolled() == (EditorView {
            scroll_row: v.scrolled().scroll_row,
            scroll_col: v.scrolled().scroll_col,
            ..v
        }),
        v.scrolled().scrolled() == v.scrolled(),
{
}

/// A character that was inserted is taken out again by a backspace.
pub proof fn backspace_reverts_insert(v: EditorView, c: char, now: u64, later: u64)
    requires
        v.wf(),
        v.between_chars(),
    ensures
        v.inserted(seq![c], now).backspaced(later).lines == v.lines,
        v.inserted(seq![c], now).backspaced(later).row == v.row,
        v.inserted(seq![c], now).backspaced(later).col == v.col,
{
    let a = before(v.line(), v.col);
    let b = after(v.line(), v.col);
    let w = v.inserted(seq![c], now);
    let line = a + seq![c] + b;
    char_index_is_greatest(v.line(), v.col);
    byte_len_of_one(c);
    byte_len_adds(a, seq![c]);
    let k = a.len() as int;
    assert(line.take(k + 1) =~= a + seq![c]);
    assert(w.col == byte_len(line.take(k + 1)));
    prefix_ends_on_boundary(line, k + 1);
    assert(char_index(line, w.col) == k + 1);
    assert(w.line() == line);
    assert(before(line, w.col) =~= a + seq![c]);
    assert(line.remove(k) =~= a + b);
    assert(a + b =~= v.line());
    started_at_boundary(line, w.col);
    assert(line.take(k) =~= a);
    let back = w.backspaced(later);
    assert(w.col > 0);
    assert(back.lines =~= v.lines.update(v.row as int, v.line()));
    assert(v.lines.update(v.row as int, v.line()) =~= v.lines);
}

} // verus!
