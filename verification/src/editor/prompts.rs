//! What the editor's prompts answer, and where its longer moves lead.

use vstd::prelude::*;
use vstd::utf8::encode_utf8;

use crate::bytes::{byte_len, byte_len_is_encoded_length};
use crate::editor::columns::{
    blank_byte, blanks_end, blanks_start, word_backward, word_end, word_forward, word_start,
};
use crate::editor::{digits_value, EditorAction, EditorOutcome, EditorView, PromptView};
use crate::figures::{number_read, numbers_read_back};
use crate::keys::{KeyCode, KeyEvent};
use crate::text::decimal_text;

verus! {

// ---------------------------------------------------------------------------
// Prompts
// ---------------------------------------------------------------------------

/// Whether only the prompt differs.
pub open spec fn only_prompt_changed(v: EditorView, w: EditorView) -> bool {
    w == (EditorView { prompt: w.prompt, ..v })
}

proof fn lemma_read(s: Seq<char>)
    requires
        crate::figures::has_digits(s, 10),
    ensures
        digits_value(s) == number_read(s, 10),
        number_read(s, 10) >= 0,
    decreases s.len(),
{
    if s.len() > 0 {
        let d = s.drop_last();
        assert forall|i: int| 0 <= i < d.len() implies '0' <= #[trigger] d[i] && (d[i] as int) < 48
            + 10 by {
            assert(d[i] == s[i]);
        }
        lemma_read(d);
        assert('0' <= s[s.len() - 1]);
    }
}

/// Answering with the number of a line goes to the start of that line, the first one being
/// line one; a number beyond the last line goes to the last. The text stays as it is.
pub proof fn goto_reaches_the_line(v: EditorView, key: KeyEvent, now: u64, n: nat)
    requires
        key.press,
        key.code == KeyCode::Enter,
        v.prompt == Some(PromptView::GotoLine { input: decimal_text(n) }),
        1 <= n <= usize::MAX,
        v.lines.len() > 0,
    ensures
        ({
            let (w, action) = v.key_step(key, now);
            &&& action == EditorAction::Done(EditorOutcome::Continue)
            &&& w.prompt is None
            &&& w.lines == v.lines
            &&& w.modified == v.modified
            &&& w.col == 0
            &&& w.row == (if n <= v.lines.len() {
                n - 1
            } else {
                v.lines.len() - 1
            })
        }),
{
    numbers_read_back(n, 10);
    lemma_read(decimal_text(n));
}

/// Digits are added to the number of the line, and taken back; anything else is left out.
pub proof fn digits_make_the_number(v: EditorView, input: Seq<char>, c: char, now: u64)
    requires
        v.prompt == Some(PromptView::GotoLine { input }),
    ensures
        ({
            let key = KeyEvent { code: KeyCode::Char(c), ctrl: false, shift: false, press: true };
            let (w, action) = v.key_step(key, now);
            &&& action == EditorAction::Done(EditorOutcome::Continue)
            &&& only_prompt_changed(v, w)
            &&& w.prompt == Some(PromptView::GotoLine {
                input: if '0' <= c <= '9' {
                    input + seq![c]
                } else {
                    input
                },
            })
            &&& '0' <= c <= '9' ==> w.key_step(
                KeyEvent { code: KeyCode::Backspace, ctrl: false, shift: false, press: true },
                now,
            ).0 == v
        }),
{
    assert(input.push(c) =~= input + seq![c]);
    assert(input.push(c).drop_last() =~= input);
}

/// The keys that save ask for that, one of them to close as well; those that close do so
/// at once where nothing has changed, and else ask whether to save first.
pub proof fn saving_and_closing_are_asked_for(v: EditorView, now: u64)
    requires
        v.prompt is None,
    ensures
        ({
            let ctrl = |c: char|
                KeyEvent { code: KeyCode::Char(c), ctrl: true, shift: false, press: true };
            let esc = KeyEvent { code: KeyCode::Esc, ctrl: false, shift: false, press: true };
            &&& v.key_step(ctrl('s'), now) == (v, EditorAction::Save { close: false })
            &&& v.key_step(ctrl('w'), now) == (v, EditorAction::Save { close: true })
            &&& v.key_step(esc, now) == v.key_step(ctrl('q'), now)
            &&& !v.modified ==> v.key_step(ctrl('q'), now) == (
                v,
                EditorAction::Done(EditorOutcome::Close),
            )
            &&& v.modified ==> {
                let (w, action) = v.key_step(ctrl('q'), now);
                &&& action == EditorAction::Done(EditorOutcome::Continue)
                &&& only_prompt_changed(v, w)
                &&& w.prompt == Some(PromptView::UnsavedClose { selection: 0 })
            }
            &&& v.key_step(ctrl('g'), now) == (
                EditorView { prompt: Some(PromptView::GotoLine { input: Seq::empty() }), ..v },
                EditorAction::Done(EditorOutcome::Continue),
            )
        }),
{
}

/// Asked whether to save, the first answer saves and closes, the second closes, the third
/// goes back to the text, as escape does.
pub proof fn unsaved_changes_are_asked_about(v: EditorView, selection: u8, now: u64)
    requires
        v.prompt == Some(PromptView::UnsavedClose { selection }),
        selection <= 2,
    ensures
        ({
            let pressed = |code: KeyCode| KeyEvent { code, ctrl: false, shift: false, press: true };
            let back = EditorView { prompt: None, ..v };
            let at = |i: int|
                EditorView { prompt: Some(PromptView::UnsavedClose { selection: i as u8 }), ..v };
            &&& v.key_step(pressed(KeyCode::Enter), now) == (
                back,
                if selection == 0 {
                    EditorAction::Save { close: true }
                } else if selection == 1 {
                    EditorAction::Done(EditorOutcome::Close)
                } else {
                    EditorAction::Done(EditorOutcome::Continue)
                },
            )
            &&& v.key_step(pressed(KeyCode::Esc), now) == (
                back,
                EditorAction::Done(EditorOutcome::Continue),
            )
            &&& v.key_step(pressed(KeyCode::Right), now).0 == at(
                if selection < 2 {
                    selection + 1
                } else {
                    2
                },
            )
            &&& v.key_step(pressed(KeyCode::Left), now).0 == at(
                if selection > 0 {
                    selection - 1
                } else {
                    0
                },
            )
        }),
{
}

/// Asked whether to load a large file, the first answer loads it, and the other closes the
/// editor, as escape does.
pub proof fn large_files_are_asked_about(v: EditorView, selection: u8, size: u64, now: u64)
    requires
        v.prompt == Some(PromptView::LargeFile { selection, size }),
    ensures
        ({
            let pressed = |code: KeyCode| KeyEvent { code, ctrl: false, shift: false, press: true };
            let closes = EditorAction::Done(EditorOutcome::Close);
            let goes_on = EditorAction::Done(EditorOutcome::Continue);
            &&& v.key_step(pressed(KeyCode::Enter), now) == (if selection == 0 {
                (EditorView { prompt: None, force_loaded: true, ..v }, goes_on)
            } else {
                (v, closes)
            })
            &&& v.key_step(pressed(KeyCode::Esc), now) == (v, closes)
        }),
{
}

// ---------------------------------------------------------------------------
// Pages and words
// ---------------------------------------------------------------------------

/// A page is as many lines as the screen shows, but for its frame; the page keys go that
/// far down or up, but not beyond the ends of the text, and change no text.
pub proof fn page_keys_go_a_page(v: EditorView, key: KeyEvent, now: u64)
    requires
        key.press,
        v.prompt is None,
        v.row < v.lines.len(),
        key.code == KeyCode::PageDown || key.code == KeyCode::PageUp,
    ensures
        ({
            let w = v.key_step(key, now).0;
            let page = if v.size.1 > 4 {
                v.size.1 - 3
            } else {
                1
            };
            let to = if key.code == KeyCode::PageDown {
                v.row + page
            } else {
                v.row - page
            };
            &&& w.lines == v.lines
            &&& w.modified == v.modified
            &&& 0 <= to < v.lines.len() ==> w.row == to
            &&& to < 0 ==> w.row == 0
            &&& to >= v.lines.len() ==> w.row == v.lines.len() - 1
            &&& w.col == (if v.col <= byte_len(v.lines[w.row as int]) {
                v.col
            } else {
                byte_len(v.lines[w.row as int])
            })
        }),
{
}

/// Whether bytes `s` to `e` of a line are a whole word: not blank, and followed by a blank
/// or by the end.
pub open spec fn word_ends(b: Seq<u8>, s: int, e: int) -> bool {
    &&& s < e <= b.len()
    &&& forall|i: int| s <= i < e ==> !blank_byte(#[trigger] b[i])
    &&& e < b.len() ==> blank_byte(b[e])
}

/// Whether bytes `s` to `e` of a line are a whole word: not blank, and preceded by a blank
/// or by the start.
pub open spec fn word_starts(b: Seq<u8>, s: int, e: int) -> bool {
    &&& 0 <= s < e
    &&& forall|i: int| s <= i < e ==> !blank_byte(#[trigger] b[i])
    &&& s > 0 ==> blank_byte(b[s - 1])
}

/// Whether bytes `s` to `e` of a line are blank.
pub open spec fn all_blank(b: Seq<u8>, s: int, e: int) -> bool {
    forall|i: int| s <= i < e ==> blank_byte(#[trigger] b[i])
}

proof fn lemma_blanks_end(b: Seq<u8>, c: nat)
    requires
        c <= b.len(),
    ensures
        c <= blanks_end(b, c) <= b.len(),
        all_blank(b, c as int, blanks_end(b, c) as int),
        blanks_end(b, c) < b.len() ==> !blank_byte(b[blanks_end(b, c) as int]),
    decreases b.len() - c,
{
    if c < b.len() && blank_byte(b[c as int]) {
        lemma_blanks_end(b, c + 1);
    }
}

proof fn lemma_word_end(b: Seq<u8>, c: nat)
    requires
        c <= b.len(),
    ensures
        c <= word_end(b, c) <= b.len(),
        forall|i: int| c <= i < word_end(b, c) ==> !blank_byte(#[trigger] b[i]),
        word_end(b, c) < b.len() ==> blank_byte(b[word_end(b, c) as int]),
    decreases b.len() - c,
{
    if c < b.len() && !blank_byte(b[c as int]) {
        lemma_word_end(b, c + 1);
    }
}

proof fn lemma_blanks_start(b: Seq<u8>, c: nat)
    requires
        c <= b.len(),
    ensures
        blanks_start(b, c) <= c,
        all_blank(b, blanks_start(b, c) as int, c as int),
        blanks_start(b, c) > 0 ==> !blank_byte(b[blanks_start(b, c) - 1]),
    decreases c,
{
    if c > 0 && blank_byte(b[c - 1]) {
        lemma_blanks_start(b, (c - 1) as nat);
    }
}

proof fn lemma_word_start(b: Seq<u8>, c: nat)
    requires
        c <= b.len(),
    ensures
        word_start(b, c) <= c,
        forall|i: int| word_start(b, c) <= i < c ==> !blank_byte(#[trigger] b[i]),
        word_start(b, c) > 0 ==> blank_byte(b[word_start(b, c) - 1]),
    decreases c,
{
    if c > 0 && !blank_byte(b[c - 1]) {
        lemma_word_start(b, (c - 1) as nat);
    }
}

/// Whether row `q` and byte `e` are the end of the first word from row `r` and byte `c`
/// on: all between is blank.
pub open spec fn next_word_ends(lines: Seq<Seq<char>>, r: nat, c: nat, q: nat, e: nat) -> bool {
    let from = |i: int| if i == r { c as int } else { 0 };
    &&& r <= q < lines.len()
    &&& forall|i: int| r <= i < q ==> all_blank(
        #[trigger] encode_utf8(lines[i]),
        from(i),
        encode_utf8(lines[i]).len() as int,
    )
    &&& exists|s: int| {
        &&& from(q as int) <= s
        &&& all_blank(encode_utf8(lines[q as int]), from(q as int), s)
        &&& #[trigger] word_ends(encode_utf8(lines[q as int]), s, e as int)
    }
}

/// Whether there is no word from row `r` and byte `c` on.
pub open spec fn no_word_from(lines: Seq<Seq<char>>, r: nat, c: nat) -> bool {
    forall|i: int| r <= i < lines.len() ==> all_blank(
        #[trigger] encode_utf8(lines[i]),
        if i == r {
            c as int
        } else {
            0
        },
        encode_utf8(lines[i]).len() as int,
    )
}

proof fn lemma_forward(lines: Seq<Seq<char>>, r: nat, c: nat)
    requires
        r < lines.len(),
        c <= encode_utf8(lines[r as int]).len(),
    ensures
        ({
            let (q, e) = word_forward(lines, r, c);
            if no_word_from(lines, r, c) {
                q == lines.len() - 1 && e == encode_utf8(lines[q as int]).len()
            } else {
                next_word_ends(lines, r, c, q, e)
            }
        }),
    decreases lines.len() - r,
{
    let b = encode_utf8(lines[r as int]);
    let s = blanks_end(b, c);
    lemma_blanks_end(b, c);
    lemma_word_end(b, s);
    let e = word_end(b, s);
    if s < b.len() {
        assert(word_ends(b, s as int, e as int));
        assert(!all_blank(b, c as int, b.len() as int)) by {
            assert(!blank_byte(b[s as int]));
        }
        assert(next_word_ends(lines, r, c, r, e));
    } else if r + 1 < lines.len() {
        lemma_forward(lines, r + 1, 0);
        let (q, f) = word_forward(lines, r + 1, 0);
        if no_word_from(lines, r + 1, 0) {
            assert(no_word_from(lines, r, c));
        } else {
            if no_word_from(lines, r, c) {
                assert(no_word_from(lines, r + 1, 0));
            }
            let t = choose|t: int| {
                &&& 0 <= t
                &&& all_blank(encode_utf8(lines[q as int]), 0, t)
                &&& #[trigger] word_ends(encode_utf8(lines[q as int]), t, f as int)
            };
            assert(word_ends(encode_utf8(lines[q as int]), t, f as int));
            assert(next_word_ends(lines, r, c, q, f));
        }
    } else {
        assert(no_word_from(lines, r, c));
    }
}

/// Going to the next word stops at its end, on the first line that has one; where there is
/// none, at the end of the text. No text changes.
pub proof fn word_key_goes_to_the_next_end(v: EditorView, key: KeyEvent, now: u64)
    requires
        key.press,
        key.ctrl,
        key.code == KeyCode::Right,
        v.prompt is None,
        v.row < v.lines.len(),
        v.col <= byte_len(v.lines[v.row as int]),
    ensures
        ({
            let w = v.key_step(key, now).0;
            &&& w.lines == v.lines
            &&& w.modified == v.modified
            &&& if no_word_from(v.lines, v.row, v.col) {
                w.row == v.lines.len() - 1 && w.col == byte_len(v.lines[w.row as int])
            } else {
                next_word_ends(v.lines, v.row, v.col, w.row, w.col)
            }
        }),
{
    byte_len_is_encoded_length(v.lines[v.row as int]);
    lemma_forward(v.lines, v.row, v.col);
    byte_len_is_encoded_length(v.lines[v.lines.len() - 1]);
}

/// Whether row `q` and byte `s` are the start of the last word before row `r` and byte
/// `c`: all between is blank.
pub open spec fn last_word_starts(lines: Seq<Seq<char>>, r: nat, c: nat, q: nat, s: nat) -> bool {
    let upto = |i: int| if i == r { c as int } else { encode_utf8(lines[i]).len() as int };
    &&& q <= r
    &&& forall|i: int| q < i <= r ==> all_blank(#[trigger] encode_utf8(lines[i]), 0, upto(i))
    &&& exists|e: int| {
        &&& e <= upto(q as int)
        &&& all_blank(encode_utf8(lines[q as int]), e, upto(q as int))
        &&& #[trigger] word_starts(encode_utf8(lines[q as int]), s as int, e)
    }
}

/// Whether there is no word before row `r` and byte `c`.
pub open spec fn no_word_before(lines: Seq<Seq<char>>, r: nat, c: nat) -> bool {
    forall|i: int| 0 <= i <= r ==> all_blank(
        #[trigger] encode_utf8(lines[i]),
        0,
        if i == r {
            c as int
        } else {
            encode_utf8(lines[i]).len() as int
        },
    )
}

proof fn lemma_backward(lines: Seq<Seq<char>>, r: nat, c: nat)
    requires
        r < lines.len(),
        c <= encode_utf8(lines[r as int]).len(),
    ensures
        ({
            let (q, s) = word_backward(lines, r, c);
            if no_word_before(lines, r, c) {
                q == 0 && s == 0
            } else {
                last_word_starts(lines, r, c, q, s)
            }
        }),
    decreases r,
{
    let b = encode_utf8(lines[r as int]);
    let e = blanks_start(b, c);
    lemma_blanks_start(b, c);
    lemma_word_start(b, e);
    let s = word_start(b, e);
    if e > 0 {
        assert(word_starts(b, s as int, e as int));
        assert(!all_blank(b, 0, c as int)) by {
            assert(!blank_byte(b[e - 1]));
        }
        assert(last_word_starts(lines, r, c, r, s));
    } else if r > 0 {
        let p = (r - 1) as nat;
        let n = byte_len(lines[r - 1]);
        byte_len_is_encoded_length(lines[r - 1]);
        lemma_backward(lines, p, n);
        let (q, t) = word_backward(lines, p, n);
        if no_word_before(lines, p, n) {
            assert(no_word_before(lines, r, c));
        } else {
            if no_word_before(lines, r, c) {
                assert(no_word_before(lines, p, n));
            }
            let f = choose|f: int| {
                &&& f <= encode_utf8(lines[q as int]).len()
                &&& all_blank(
                    encode_utf8(lines[q as int]),
                    f,
                    encode_utf8(lines[q as int]).len() as int,
                )
                &&& #[trigger] word_starts(encode_utf8(lines[q as int]), t as int, f)
            };
            assert(word_starts(encode_utf8(lines[q as int]), t as int, f));
            assert(last_word_starts(lines, r, c, q, t));
        }
    } else {
        assert(no_word_before(lines, r, c));
    }
}

/// Going back a word stops at its start, on the nearest line that has one; where there is
/// none, at the start of the text. No text changes.
pub proof fn word_key_goes_to_the_last_start(v: EditorView, key: KeyEvent, now: u64)
    requires
        key.press,
        key.ctrl,
        key.code == KeyCode::Left,
        v.prompt is None,
        v.row < v.lines.len(),
        v.col <= byte_len(v.lines[v.row as int]),
    ensures
        ({
            let w = v.key_step(key, now).0;
            &&& w.lines == v.lines
            &&& w.modified == v.modified
            &&& if no_word_before(v.lines, v.row, v.col) {
                w.row == 0 && w.col == 0
            } else {
                last_word_starts(v.lines, v.row, v.col, w.row, w.col)
            }
        }),
{
    byte_len_is_encoded_length(v.lines[v.row as int]);
    lemma_backward(v.lines, v.row, v.col);
}

} // verus!
