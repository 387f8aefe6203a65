//! What keys do in the editor.

use vstd::prelude::*;

use crate::bytes::length;
use crate::editor::columns::{next, previous};
use crate::editor::{
    all_digits, digits_value, is_digit, prompt_view, Editor, EditorAction, EditorOutcome,
    EditorPrompt, EditorView, PromptView,
};
use crate::keys::{KeyCode, KeyEvent};
use crate::text::{chars_of, drop_last_char, push_char};

verus! {

/// The number that decimal digits stand for, where it is a machine number.
fn parse_digits(s: &str) -> (r: Option<usize>)
    requires
        all_digits(s@),
    ensures
        r is Some <==> s@.len() > 0 && digits_value(s@) <= usize::MAX,
        r matches Some(n) ==> n == digits_value(s@),
{
    let chars = chars_of(s);
    if chars.len() == 0 {
        return None;
    }
    let mut n: usize = 0;
    let mut i: usize = 0;
    assert(s@.take(0) =~= Seq::<char>::empty());
    while i < chars.len()
        invariant
            i <= chars@.len(),
            chars@ == s@,
            s@.len() > 0,
            all_digits(s@),
            n == digits_value(s@.take(i as int)),
        decreases chars@.len() - i,
    {
        assert(s@.take(i + 1).drop_last() =~= s@.take(i as int));
        assert(is_digit(s@[i as int]));
        proof {
            lemma_value_grows(s@, i + 1);
        }
        let d: usize = (chars[i] as u32 - '0' as u32) as usize;
        match n.checked_mul(10) {
            Some(m) => match m.checked_add(d) {
                Some(t) => {
                    n = t;
                },
                None => {
                    return None;
                },
            },
            None => {
                return None;
            },
        }
        i = i + 1;
    }
    assert(s@.take(i as int) =~= s@);
    Some(n)
}

proof fn lemma_value_grows(s: Seq<char>, k: int)
    requires
        0 <= k <= s.len(),
    ensures
        digits_value(s.take(k)) <= digits_value(s),
    decreases s.len(),
{
    if k == s.len() {
        assert(s.take(k) =~= s);
    } else {
        lemma_value_grows(s.drop_last(), k);
        assert(s.drop_last().take(k) =~= s.take(k));
    }
}

impl Editor {
    fn set_prompt(&mut self, p: Option<EditorPrompt>)
        ensures
            final(self)@ == old(self)@.prompted(prompt_view(p)),
    {
        self.prompt = p;
        assert(self@ =~= old(self)@.prompted(prompt_view(p)));
    }

    /// Opens a large or binary file all the same.
    pub fn confirm_load(&mut self)
        ensures
            final(self)@ == (EditorView { force_loaded: true, prompt: None, ..old(self)@ }),
    {
        self.force_loaded = true;
        self.prompt = None;
        assert(self@ =~= (EditorView { force_loaded: true, prompt: None, ..old(self)@ }));
    }

    /// Tells the editor how large its screen is.
    pub fn report_size(&mut self, w: u16, h: u16)
        ensures
            final(self)@ == (EditorView { size: (w, h), ..old(self)@ }),
    {
        self.last_size = (w, h);
        assert(self@ =~= (EditorView { size: (w, h), ..old(self)@ }));
    }

    /// Closes, or asks first.
    fn request_close(&mut self) -> (r: EditorAction)
        requires
            old(self)@.wf(),
        ensures
            (final(self)@, r) == old(self)@.close_requested(),
            final(self)@.wf(),
    {
        if self.modified {
            self.set_prompt(Some(EditorPrompt::UnsavedClose { selection: 0 }));
            EditorAction::Done(EditorOutcome::Continue)
        } else {
            EditorAction::Done(EditorOutcome::Close)
        }
    }

    fn move_left(&mut self)
        requires
            old(self)@.wf(),
        ensures
            final(self)@ == old(self)@.moved_left(),
            final(self)@.wf(),
    {
        let ghost v = self@;
        let (row, col) = self.cursor;
        assert(self.lines@[row as int]@ == v.line());
        if col > 0 {
            let c = previous(&self.lines[row], col);
            self.go_to(row, c);
        } else if row > 0 {
            let c = length(&self.lines[row - 1]);
            assert(self.lines@[row - 1]@ == v.lines[row - 1]);
            self.go_to(row - 1, c);
        } else {
            self.ensure_visible();
        }
    }

    fn move_right(&mut self)
        requires
            old(self)@.wf(),
        ensures
            final(self)@ == old(self)@.moved_right(),
            final(self)@.wf(),
    {
        let ghost v = self@;
        let (row, col) = self.cursor;
        assert(self.lines@[row as int]@ == v.line());
        assert(self.lines@.len() == v.lines.len());
        if col < length(&self.lines[row]) {
            let c = next(&self.lines[row], col);
            self.go_to(row, c);
        } else if row < self.lines.len() - 1 {
            self.go_to(row + 1, 0);
        } else {
            self.ensure_visible();
        }
    }

    fn page(&self) -> (r: usize)
        ensures
            r == self@.rows_shown(),
    {
        if self.last_size.1 <= 3 {
            1
        } else {
            (self.last_size.1 - 3) as usize
        }
    }

    fn handle_unsaved_key(&mut self, selection: u8, key: KeyEvent) -> (r: EditorAction)
        requires
            old(self)@.wf(),
            old(self)@.prompt == Some(PromptView::UnsavedClose { selection }),
        ensures
            (final(self)@, r) == old(self)@.prompt_step(
                PromptView::UnsavedClose { selection },
                key,
            ),
            final(self)@.wf(),
    {
        match key.code {
            KeyCode::Esc => {
                self.set_prompt(None);
            },
            KeyCode::Left => {
                let s: u8 = if selection == 0 {
                    0
                } else {
                    selection - 1
                };
                self.set_prompt(Some(EditorPrompt::UnsavedClose { selection: s }));
            },
            KeyCode::Right | KeyCode::Tab => {
                let s: u8 = if selection + 1 > 2 {
                    2
                } else {
                    selection + 1
                };
                self.set_prompt(Some(EditorPrompt::UnsavedClose { selection: s }));
            },
            KeyCode::Enter | KeyCode::Char(' ') => {
                self.set_prompt(None);
                if selection == 0 {
                    return EditorAction::Save { close: true };
                } else if selection == 1 {
                    return EditorAction::Done(EditorOutcome::Close);
                }
            },
            _ => {},
        }
        EditorAction::Done(EditorOutcome::Continue)
    }

    fn handle_goto_key(&mut self, input: &String, key: KeyEvent) -> (r: EditorAction)
        requires
            old(self)@.wf(),
            old(self)@.prompt == Some(PromptView::GotoLine { input: input@ }),
        ensures
            (final(self)@, r) == old(self)@.prompt_step(
                PromptView::GotoLine { input: input@ },
                key,
            ),
            final(self)@.wf(),
    {
        let ghost v = self@;
        match key.code {
            KeyCode::Esc => {
                self.set_prompt(None);
            },
            KeyCode::Enter => {
                if let Some(n) = parse_digits(input) {
                    assert(self.lines@.len() == v.lines.len());
                    let last: usize = self.lines.len() - 1;
                    let wish: usize = if n == 0 {
                        0
                    } else {
                        n - 1
                    };
                    let row: usize = if wish <= last {
                        wish
                    } else {
                        last
                    };
                    self.go_to(row, 0);
                }
                assert(self@ == v.gone_to(input@));
                self.set_prompt(None);
            },
            KeyCode::Backspace => {
                let shorter = drop_last_char(input);
                self.set_prompt(Some(EditorPrompt::GotoLine { input: shorter }));
            },
            KeyCode::Char(c) => {
                if '0' <= c && c <= '9' {
                    let mut longer = input.clone();
                    push_char(&mut longer, c);
                    self.set_prompt(Some(EditorPrompt::GotoLine { input: longer }));
                }
            },
            _ => {},
        }
        EditorAction::Done(EditorOutcome::Continue)
    }

    fn handle_large_key(&mut self, selection: u8, size: u64, key: KeyEvent) -> (r: EditorAction)
        requires
            old(self)@.wf(),
            old(self)@.prompt == Some(PromptView::LargeFile { selection, size }),
        ensures
            (final(self)@, r) == old(self)@.prompt_step(
                PromptView::LargeFile { selection, size },
                key,
            ),
            final(self)@.wf(),
    {
        match key.code {
            KeyCode::Esc => {
                return EditorAction::Done(EditorOutcome::Close);
            },
            KeyCode::Left | KeyCode::Right | KeyCode::Tab => {
                self.set_prompt(Some(EditorPrompt::LargeFile { selection: selection ^ 1, size }));
            },
            KeyCode::Enter | KeyCode::Char(' ') => {
                if selection == 0 {
                    self.confirm_load();
                } else {
                    return EditorAction::Done(EditorOutcome::Close);
                }
            },
            _ => {},
        }
        EditorAction::Done(EditorOutcome::Continue)
    }

    /// What a key does while a prompt is shown.
    fn handle_prompt_key(&mut self, key: KeyEvent) -> (r: EditorAction)
        requires
            old(self)@.wf(),
            old(self)@.prompt is Some,
        ensures
            (final(self)@, r) == old(self)@.prompt_step(old(self)@.prompt->0, key),
            final(self)@.wf(),
    {
        let ghost v = self@;
        match &self.prompt {
            Some(EditorPrompt::UnsavedClose { selection }) => {
                let s: u8 = *selection;
                self.handle_unsaved_key(s, key)
            },
            Some(EditorPrompt::GotoLine { input }) => {
                let i = input.clone();
                self.handle_goto_key(&i, key)
            },
            Some(EditorPrompt::LargeFile { selection, size }) => {
                let s: u8 = *selection;
                let n: u64 = *size;
                self.handle_large_key(s, n, key)
            },
            Some(EditorPrompt::Message { .. }) => {
                self.set_prompt(None);
                EditorAction::Done(EditorOutcome::Continue)
            },
            None => EditorAction::Done(EditorOutcome::Continue),
        }
    }

    fn handle_control_key(&mut self, c: char, now: u64) -> (r: EditorAction)
        requires
            old(self)@.wf(),
            old(self)@.prompt is None,
        ensures
            (final(self)@, r) == (match old(self)@.control_step(c, now) {
                Some(s) => s,
                None => (old(self)@, EditorAction::Done(EditorOutcome::Continue)),
            }),
            final(self)@.wf(),
    {
        match c {
            'q' => {
                return self.request_close();
            },
            's' => {
                return EditorAction::Save { close: false };
            },
            'w' => {
                return EditorAction::Save { close: true };
            },
            'z' => {
                self.undo();
            },
            'y' => {
                self.redo();
            },
            'd' => {
                self.duplicate_line(now);
            },
            'k' => {
                self.kill_line(now);
            },
            'g' => {
                let input = String::new();
                assert(input@ =~= Seq::<char>::empty());
                self.set_prompt(Some(EditorPrompt::GotoLine { input }));
            },
            _ => {},
        }
        EditorAction::Done(EditorOutcome::Continue)
    }

    fn handle_plain_key(&mut self, key: KeyEvent, now: u64) -> (r: EditorAction)
        requires
            old(self)@.wf(),
            old(self)@.prompt is None,
            key.press,
            old(self)@.edits_at_cursor(key) ==> old(self)@.between_chars(),
        ensures
            (final(self)@, r) == old(self)@.plain_step(key, now),
            final(self)@.wf(),
    {
        let ghost v = self@;
        let (row, col) = self.cursor;
        assert(self.lines@.len() == v.lines.len());
        assert(self.lines@[row as int]@ == v.line());
        match key.code {
            KeyCode::Esc => {
                return self.request_close();
            },
            KeyCode::Left => {
                if key.ctrl {
                    self.move_word(false);
                } else {
                    self.move_left();
                }
            },
            KeyCode::Right => {
                if key.ctrl {
                    self.move_word(true);
                } else {
                    self.move_right();
                }
            },
            KeyCode::Up => {
                if row > 0 {
                    self.go_to_row(row - 1);
                } else {
                    self.ensure_visible();
                }
            },
            KeyCode::Down => {
                if row < self.lines.len() - 1 {
                    self.go_to_row(row + 1);
                } else {
                    self.ensure_visible();
                }
            },
            KeyCode::Home => {
                self.go_to(row, 0);
            },
            KeyCode::End => {
                let c = length(&self.lines[row]);
                self.go_to(row, c);
            },
            KeyCode::PageUp => {
                let h = self.page();
                let to: usize = if row <= h {
                    0
                } else {
                    row - h
                };
                self.go_to_row(to);
            },
            KeyCode::PageDown => {
                let h = self.page();
                let last: usize = self.lines.len() - 1;
                let to: usize = if last - row <= h {
                    last
                } else {
                    row + h
                };
                self.go_to_row(to);
            },
            KeyCode::Backspace => {
                self.backspace(now);
            },
            KeyCode::Delete => {
                self.delete_forward(now);
            },
            KeyCode::Enter => {
                self.split_line(now);
            },
            KeyCode::Tab => {
                self.insert_str("    ", now);
            },
            KeyCode::BackTab => {
                self.dedent_line(now);
            },
            KeyCode::Char(c) => {
                if key.ctrl {
                    return self.handle_control_key(c, now);
                }
                self.insert_char(c, now);
            },
            KeyCode::Other => {},
        }
        EditorAction::Done(EditorOutcome::Continue)
    }

    /// What a key does that was pressed at the time `now`. A key that changes
    /// the text at the cursor needs the cursor between two characters.
    pub fn handle_key(&mut self, key: KeyEvent, now: u64) -> (r: EditorAction)
        requires
            old(self)@.wf(),
            old(self)@.edits_at_cursor(key) ==> old(self)@.between_chars(),
        ensures
            (final(self)@, r) == old(self)@.key_step(key, now),
            final(self)@.wf(),
    {
        if !key.press {
            return EditorAction::Done(EditorOutcome::Continue);
        }
        if self.prompt.is_some() {
            return self.handle_prompt_key(key);
        }
        self.handle_plain_key(key, now)
    }

    /// Whether a key can be handled: it does not change the text at the cursor,
    /// or the cursor stands between two characters.
    pub fn accepts(&self, key: KeyEvent) -> (r: bool)
        requires
            self@.wf(),
        ensures
            r == (self@.edits_at_cursor(key) ==> self@.between_chars()),
    {
        if !key.press || self.prompt.is_some() {
            return true;
        }
        let (row, col) = self.cursor;
        let edits = match key.code {
            KeyCode::Char(_) => !key.ctrl,
            KeyCode::Tab | KeyCode::Enter => true,
            KeyCode::Backspace => col > 0,
            KeyCode::Delete => col < length(&self.lines[row]),
            _ => false,
        };
        assert(self.lines@[row as int]@ == self@.line());
        !edits || self.cursor_between_chars()
    }
}

/// A message is gone after any key, and the key does nothing else.
pub proof fn any_key_dismisses_message(v: EditorView, key: KeyEvent, now: u64)
    requires
        v.prompt matches Some(PromptView::Message { text }),
        key.press,
    ensures
        v.key_step(key, now) == (v.prompted(None), EditorAction::Done(EditorOutcome::Continue)),
{
}

/// No key closes the editor while there are unsaved changes, unless the user
/// was asked and chose so, or the file is large or binary and was not to be
/// opened.
pub proof fn changes_are_not_lost_unasked(v: EditorView, key: KeyEvent, now: u64)
    requires
        v.modified,
        v.key_step(key, now).1 == EditorAction::Done(EditorOutcome::Close),
    ensures
        v.prompt is Some,
        v.prompt->0 is UnsavedClose || v.prompt->0 is LargeFile,
{
}

/// A key that only moves the cursor leaves the text and its history alone.
pub proof fn movement_changes_no_text(v: EditorView, key: KeyEvent, now: u64)
    requires
        v.prompt is None,
        key.code is Left || key.code is Right || key.code is Up || key.code is Down
            || key.code is Home || key.code is End || key.code is PageUp || key.code is PageDown,
    ensures
        v.key_step(key, now).0 == (EditorView {
            row: v.key_step(key, now).0.row,
            col: v.key_step(key, now).0.col,
            scroll_row: v.key_step(key, now).0.scroll_row,
            scroll_col: v.key_step(key, now).0.scroll_col,
            ..v
        }),
{
}

} // verus!
