//! The embedded text editor: its document, cursor, undo history and keys.

use vstd::prelude::*;

use crate::bytes::{after, before, byte_len};
use crate::editor::columns::{column_of, next_offset, previous_offset, word_backward, word_forward};
use crate::editor::syntax::{Palette, Syntax, Syntaxes};
use crate::keys::{KeyCode, KeyEvent};
use crate::text::{decimal_text, texts};

pub mod ascii;
pub mod columns;
pub mod edit;
pub mod file;
pub mod keymap;
pub mod laws;
pub mod prompts;
pub mod seen;
pub mod syntax;
pub mod view;

verus! {

/// Edits within this many nanoseconds of each other are undone together.
pub const UNDO_BATCH_NS: u64 = 600_000_000;

/// The number of steps that can be undone.
pub const MAX_UNDO: usize = 200;

/// The size of the largest file that is opened without asking.
pub const SOFT_FILE_LIMIT: u64 = 10_485_760;

/// What becomes of the editor after a key.
#[derive(Debug, Clone, Copy, PartialEq, Eq, Structural)]
pub enum EditorOutcome {
    Continue,
    Close,
}

/// What a key asks for.
#[derive(Debug, Clone, Copy, PartialEq, Eq, Structural)]
pub enum EditorAction {
    /// Nothing more.
    Done(EditorOutcome),
    /// The file has to be saved, and the editor closed if that worked and
    /// `close` is set.
    Save { close: bool },
}

/// A question or a message at the bottom of the editor.
#[derive(Debug)]
pub enum EditorPrompt {
    /// Close with unsaved changes? Save and close, discard, or cancel.
    UnsavedClose { selection: u8 },
    /// The number of a line to go to.
    GotoLine { input: String },
    Message { text: String },
    /// Open a large or binary file?
    LargeFile { selection: u8, size: u64 },
}

/// The mathematical form of an [`EditorPrompt`].
#[verifier::ext_equal]
pub enum PromptView {
    UnsavedClose { selection: u8 },
    GotoLine { input: Seq<char> },
    Message { text: Seq<char> },
    LargeFile { selection: u8, size: u64 },
}

impl View for EditorPrompt {
    type V = PromptView;

    open spec fn view(&self) -> PromptView {
        match *self {
            EditorPrompt::UnsavedClose { selection } => PromptView::UnsavedClose { selection },
            EditorPrompt::GotoLine { input } => PromptView::GotoLine { input: input@ },
            EditorPrompt::Message { text } => PromptView::Message { text: text@ },
            EditorPrompt::LargeFile { selection, size } => PromptView::LargeFile {
                selection,
                size,
            },
        }
    }
}

/// The view of an optional prompt.
pub open spec fn prompt_view(p: Option<EditorPrompt>) -> Option<PromptView> {
    match p {
        Some(q) => Some(q@),
        None => None,
    }
}

/// A state to go back to.
pub struct Snapshot {
    pub lines: Vec<String>,
    pub cursor: (usize, usize),
}

/// The mathematical form of a [`Snapshot`].
#[verifier::ext_equal]
pub struct SnapshotView {
    pub lines: Seq<Seq<char>>,
    pub row: nat,
    pub col: nat,
}

impl View for Snapshot {
    type V = SnapshotView;

    open spec fn view(&self) -> SnapshotView {
        SnapshotView {
            lines: texts(self.lines@),
            row: self.cursor.0 as nat,
            col: self.cursor.1 as nat,
        }
    }
}

/// The snapshots of a list.
pub open spec fn snapshot_views(v: Seq<Snapshot>) -> Seq<SnapshotView> {
    v.map_values(|s: Snapshot| s@)
}

pub struct Editor {
    pub path: String,
    pub lines: Vec<String>,
    /// Row and byte offset in the row.
    pub cursor: (usize, usize),
    /// The first row that is shown.
    pub scroll_row: usize,
    /// The first column that is shown.
    pub scroll_col: usize,
    pub modified: bool,
    pub language: String,
    pub syntax_name: String,
    pub prompt: Option<EditorPrompt>,
    /// Whether a large or binary file was opened all the same.
    pub force_loaded: bool,
    pub syntaxes: Syntaxes,
    pub palette: Palette,
    pub syntax: Syntax,
    pub undo_stack: Vec<Snapshot>,
    pub redo_stack: Vec<Snapshot>,
    /// When the last edit was made, in nanoseconds.
    pub last_edit_at: Option<u64>,
    pub last_size: (u16, u16),
}

/// The mathematical form of an [`Editor`].
#[verifier::ext_equal]
pub struct EditorView {
    pub path: Seq<char>,
    pub lines: Seq<Seq<char>>,
    pub row: nat,
    pub col: nat,
    pub scroll_row: nat,
    pub scroll_col: nat,
    pub modified: bool,
    pub language: Seq<char>,
    pub syntax_name: Seq<char>,
    /// The name of the grammar that the text is highlighted with.
    pub grammar: Seq<char>,
    pub prompt: Option<PromptView>,
    pub force_loaded: bool,
    pub undo: Seq<SnapshotView>,
    pub redo: Seq<SnapshotView>,
    pub last_edit: Option<u64>,
    pub size: (u16, u16),
}

impl View for Editor {
    type V = EditorView;

    open spec fn view(&self) -> EditorView {
        EditorView {
            path: self.path@,
            lines: texts(self.lines@),
            row: self.cursor.0 as nat,
            col: self.cursor.1 as nat,
            scroll_row: self.scroll_row as nat,
            scroll_col: self.scroll_col as nat,
            modified: self.modified,
            language: self.language@,
            syntax_name: self.syntax_name@,
            grammar: self.syntax.grammar(),
            prompt: prompt_view(self.prompt),
            force_loaded: self.force_loaded,
            undo: snapshot_views(self.undo_stack@),
            redo: snapshot_views(self.redo_stack@),
            last_edit: self.last_edit_at,
            size: self.last_size,
        }
    }
}

/// Whether the cursor lies in the text.
pub open spec fn cursor_in_text(lines: Seq<Seq<char>>, row: nat, col: nat) -> bool {
    row < lines.len() && col <= byte_len(lines[row as int])
}

/// Whether every state of a list has its cursor in its text.
pub open spec fn cursors_in_text(s: Seq<SnapshotView>) -> bool {
    forall|i: int|
        0 <= i < s.len() ==> cursor_in_text((#[trigger] s[i]).lines, s[i].row, s[i].col)
}

/// A decimal digit.
pub open spec fn is_digit(c: char) -> bool {
    '0' <= c <= '9'
}

/// Decimal digits only.
pub open spec fn all_digits(s: Seq<char>) -> bool {
    forall|i: int| 0 <= i < s.len() ==> is_digit(#[trigger] s[i])
}

/// The number that decimal digits stand for.
pub open spec fn digits_value(s: Seq<char>) -> nat
    decreases s.len(),
{
    if s.len() == 0 {
        0
    } else {
        digits_value(s.drop_last()) * 10 + (s.last() as u32 - '0' as u32) as nat
    }
}

/// The leading blanks and tabs of a line.
pub open spec fn indent_len(s: Seq<char>) -> nat
    decreases s.len(),
{
    if s.len() > 0 && (s[0] == ' ' || s[0] == '\t') {
        1 + indent_len(s.skip(1))
    } else {
        0
    }
}

/// How many of the first `n` characters are blanks, without a gap.
pub open spec fn leading_blanks(s: Seq<char>, n: nat) -> nat
    decreases n,
{
    if n > 0 && s.len() > 0 && s[0] == ' ' {
        1 + leading_blanks(s.skip(1), (n - 1) as nat)
    } else {
        0
    }
}

/// The width of a tab of indentation at the start of a line: up to four blanks,
/// or one tab.
pub open spec fn dedent_len(s: Seq<char>) -> nat {
    let n = leading_blanks(s, 4);
    if n == 0 && s.len() > 0 && s[0] == '\t' {
        1
    } else {
        n
    }
}

pub open spec fn min_nat(a: nat, b: nat) -> nat {
    if a <= b {
        a
    } else {
        b
    }
}

pub open spec fn minus_nat(a: nat, b: nat) -> nat {
    if a <= b {
        0
    } else {
        (a - b) as nat
    }
}

/// Where a window of `n` starts that started at `start` and has to show `at`.
pub open spec fn window_start(start: nat, at: nat, n: nat) -> nat {
    if at < start {
        at
    } else if at >= start + n {
        (at + 1 - n) as nat
    } else {
        start
    }
}

/// Nothing more to do.
pub open spec fn stay() -> EditorAction {
    EditorAction::Done(EditorOutcome::Continue)
}

/// The editor closes.
pub open spec fn leave() -> EditorAction {
    EditorAction::Done(EditorOutcome::Close)
}

impl EditorView {
    /// The cursor lies in the text, now and in every state to go back to; those
    /// are no more than [`MAX_UNDO`].
    pub open spec fn wf(self) -> bool {
        &&& cursor_in_text(self.lines, self.row, self.col)
        &&& cursors_in_text(self.undo)
        &&& cursors_in_text(self.redo)
        &&& self.undo.len() + self.redo.len() <= MAX_UNDO
        &&& self.prompt matches Some(PromptView::UnsavedClose { selection }) ==> selection <= 2
        &&& self.prompt matches Some(PromptView::GotoLine { input }) ==> all_digits(input)
    }

    /// The line with the cursor.
    pub open spec fn line(self) -> Seq<char> {
        self.lines[self.row as int]
    }

    /// With the cursor elsewhere.
    pub open spec fn at(self, row: nat, col: nat) -> EditorView {
        EditorView { row, col, ..self }
    }

    /// The number of rows of text on the screen.
    pub open spec fn rows_shown(self) -> nat {
        if self.size.1 <= 3 {
            1
        } else {
            (self.size.1 - 3) as nat
        }
    }

    /// The width of the line numbers and the gap behind them.
    pub open spec fn gutter(self) -> nat {
        decimal_text(
            if self.lines.len() == 0 {
                1
            } else {
                self.lines.len()
            },
        ).len() + 2
    }

    /// The number of columns of text on the screen.
    pub open spec fn columns_shown(self) -> nat {
        if self.size.0 <= self.gutter() {
            1
        } else {
            (self.size.0 - self.gutter()) as nat
        }
    }

    /// Scrolled as far as needed to show the cursor.
    pub open spec fn scrolled(self) -> EditorView {
        EditorView {
            scroll_row: window_start(self.scroll_row, self.row, self.rows_shown()),
            scroll_col: window_start(
                self.scroll_col,
                column_of(self.line(), self.col),
                self.columns_shown(),
            ),
            ..self
        }
    }

    /// With a message.
    pub open spec fn flashed(self, text: Seq<char>) -> EditorView {
        EditorView { prompt: Some(PromptView::Message { text }), ..self }
    }

    pub open spec fn prompted(self, prompt: Option<PromptView>) -> EditorView {
        EditorView { prompt, ..self }
    }

    /// The state to go back to.
    pub open spec fn snapshot(self) -> SnapshotView {
        SnapshotView { lines: self.lines, row: self.row, col: self.col }
    }

    /// Whether an edit now belongs to the same step as the last one.
    pub open spec fn batched(self, now: u64) -> bool {
        &&& self.last_edit matches Some(last)
        &&& (now <= last || now - last < UNDO_BATCH_NS)
        &&& self.undo.len() > 0
    }

    /// Before an edit: the state is kept, unless the edit belongs to the same
    /// step as the last one. What was undone can no longer be redone.
    pub open spec fn remembered(self, now: u64) -> EditorView {
        if self.batched(now) {
            EditorView { last_edit: Some(now), ..self }
        } else {
            let all = self.undo.push(self.snapshot());
            EditorView {
                last_edit: Some(now),
                undo: if all.len() > MAX_UNDO {
                    all.skip(1)
                } else {
                    all
                },
                redo: Seq::empty(),
                ..self
            }
        }
    }

    /// With other text, and the cursor elsewhere.
    pub open spec fn edited(self, lines: Seq<Seq<char>>, row: nat, col: nat) -> EditorView {
        EditorView { lines, row, col, modified: true, ..self }
    }

    /// The last step undone.
    pub open spec fn undone(self) -> EditorView {
        if self.undo.len() == 0 {
            self.flashed("nothing to undo"@)
        } else {
            let s = self.undo.last();
            EditorView {
                undo: self.undo.drop_last(),
                redo: self.redo.push(self.snapshot()),
                last_edit: None,
                ..self.edited(s.lines, s.row, s.col)
            }
        }
    }

    /// The last undone step done again.
    pub open spec fn redone(self) -> EditorView {
        if self.redo.len() == 0 {
            self.flashed("nothing to redo"@)
        } else {
            let s = self.redo.last();
            EditorView {
                redo: self.redo.drop_last(),
                undo: self.undo.push(self.snapshot()),
                last_edit: None,
                ..self.edited(s.lines, s.row, s.col)
            }
        }
    }

    /// With `s` inserted at the cursor.
    pub open spec fn inserted(self, s: Seq<char>, now: u64) -> EditorView {
        let line = before(self.line(), self.col) + s + after(self.line(), self.col);
        self.remembered(now).edited(
            self.lines.update(self.row as int, line),
            self.row,
            self.col + byte_len(s),
        ).scrolled()
    }

    /// With the line broken at the cursor; the new line is indented as the
    /// first part is.
    pub open spec fn line_split(self, now: u64) -> EditorView {
        let head = before(self.line(), self.col);
        let indent = head.take(indent_len(head) as int);
        self.remembered(now).edited(
            self.lines.update(self.row as int, head).insert(
                self.row as int + 1,
                indent + after(self.line(), self.col),
            ),
            self.row + 1,
            byte_len(indent),
        ).scrolled()
    }

    /// Without the character before the cursor; at the start of a line, joined
    /// with the line above.
    pub open spec fn backspaced(self, now: u64) -> EditorView {
        if self.col == 0 {
            if self.row == 0 {
                self
            } else {
                let above = self.lines[self.row - 1];
                self.remembered(now).edited(
                    self.lines.remove(self.row as int).update(self.row - 1, above + self.line()),
                    (self.row - 1) as nat,
                    byte_len(above),
                )
            }
        } else {
            let k = before(self.line(), self.col).len();
            self.remembered(now).edited(
                self.lines.update(self.row as int, self.line().remove(k - 1)),
                self.row,
                previous_offset(self.line(), self.col),
            ).scrolled()
        }
    }

    /// Without the character at the cursor; at the end of a line, joined with
    /// the line below.
    pub open spec fn deleted(self, now: u64) -> EditorView {
        if self.col == byte_len(self.line()) {
            if self.row + 1 >= self.lines.len() {
                self
            } else {
                self.remembered(now).edited(
                    self.lines.remove(self.row as int + 1).update(
                        self.row as int,
                        self.line() + self.lines[self.row as int + 1],
                    ),
                    self.row,
                    self.col,
                )
            }
        } else {
            let k = before(self.line(), self.col).len();
            self.remembered(now).edited(
                self.lines.update(self.row as int, self.line().remove(k as int)),
                self.row,
                self.col,
            )
        }
    }

    /// With the line repeated, and the cursor in the copy.
    pub open spec fn duplicated(self, now: u64) -> EditorView {
        self.remembered(now).edited(
            self.lines.insert(self.row as int + 1, self.line()),
            self.row + 1,
            self.col,
        ).scrolled()
    }

    /// Without the line; an only line is emptied.
    pub open spec fn killed(self, now: u64) -> EditorView {
        let v = self.remembered(now);
        if self.lines.len() == 1 {
            v.edited(seq![Seq::empty()], 0, 0).scrolled()
        } else {
            v.edited(
                self.lines.remove(self.row as int),
                min_nat(self.row, (self.lines.len() - 2) as nat),
                0,
            ).scrolled()
        }
    }

    /// With the line moved to the left by a tab of indentation.
    pub open spec fn dedented(self, now: u64) -> EditorView {
        let n = dedent_len(self.line());
        EditorView {
            modified: self.modified || n > 0,
            ..self.remembered(now).edited(
                self.lines.update(self.row as int, self.line().skip(n as int)),
                self.row,
                minus_nat(self.col, n),
            )
        }
    }

    /// With the cursor in another row, as far right as it was or at the end.
    pub open spec fn in_row(self, row: nat) -> EditorView {
        self.at(row, min_nat(self.col, byte_len(self.lines[row as int]))).scrolled()
    }

    pub open spec fn moved_left(self) -> EditorView {
        (if self.col > 0 {
            self.at(self.row, previous_offset(self.line(), self.col))
        } else if self.row > 0 {
            self.at((self.row - 1) as nat, byte_len(self.lines[self.row - 1]))
        } else {
            self
        }).scrolled()
    }

    pub open spec fn moved_right(self) -> EditorView {
        (if self.col < byte_len(self.line()) {
            self.at(self.row, next_offset(self.line(), self.col))
        } else if self.row + 1 < self.lines.len() {
            self.at(self.row + 1, 0)
        } else {
            self
        }).scrolled()
    }

    pub open spec fn moved_up(self) -> EditorView {
        if self.row > 0 {
            self.in_row((self.row - 1) as nat)
        } else {
            self.scrolled()
        }
    }

    pub open spec fn moved_down(self) -> EditorView {
        if self.row + 1 < self.lines.len() {
            self.in_row(self.row + 1)
        } else {
            self.scrolled()
        }
    }

    pub open spec fn moved_word(self, forward: bool) -> EditorView {
        let p = if forward {
            word_forward(self.lines, self.row, self.col)
        } else {
            word_backward(self.lines, self.row, self.col)
        };
        self.at(p.0, p.1).scrolled()
    }

    pub open spec fn paged_up(self) -> EditorView {
        self.in_row(minus_nat(self.row, self.rows_shown()))
    }

    pub open spec fn paged_down(self) -> EditorView {
        self.in_row(min_nat(self.row + self.rows_shown(), (self.lines.len() - 1) as nat))
    }

    /// Closing asks first where there are unsaved changes.
    pub open spec fn close_requested(self) -> (EditorView, EditorAction) {
        if self.modified {
            (self.prompted(Some(PromptView::UnsavedClose { selection: 0 })), stay())
        } else {
            (self, leave())
        }
    }

    /// At the start of the line of a number; numbers beyond the end are the
    /// last line. A number that is too large for the machine goes nowhere.
    pub open spec fn gone_to(self, input: Seq<char>) -> EditorView {
        let n = digits_value(input);
        if input.len() == 0 || n > usize::MAX {
            self
        } else {
            self.at(min_nat(minus_nat(n, 1), (self.lines.len() - 1) as nat), 0).scrolled()
        }
    }

    /// What a key does while a prompt is shown.
    pub open spec fn prompt_step(self, p: PromptView, key: KeyEvent) -> (EditorView, EditorAction) {
        match p {
            PromptView::UnsavedClose { selection } => match key.code {
                KeyCode::Esc => (self.prompted(None), stay()),
                KeyCode::Left => (
                    self.prompted(
                        Some(
                            PromptView::UnsavedClose {
                                selection: minus_nat(selection as nat, 1) as u8,
                            },
                        ),
                    ),
                    stay(),
                ),
                KeyCode::Right | KeyCode::Tab => (
                    self.prompted(
                        Some(
                            PromptView::UnsavedClose {
                                selection: min_nat(selection as nat + 1, 2) as u8,
                            },
                        ),
                    ),
                    stay(),
                ),
                KeyCode::Enter | KeyCode::Char(' ') => (
                    self.prompted(None),
                    if selection == 0 {
                        EditorAction::Save { close: true }
                    } else if selection == 1 {
                        leave()
                    } else {
                        stay()
                    },
                ),
                _ => (self, stay()),
            },
            PromptView::GotoLine { input } => match key.code {
                KeyCode::Esc => (self.prompted(None), stay()),
                KeyCode::Enter => (self.gone_to(input).prompted(None), stay()),
                KeyCode::Backspace => (
                    self.prompted(
                        Some(
                            PromptView::GotoLine {
                                input: if input.len() == 0 {
                                    input
                                } else {
                                    input.drop_last()
                                },
                            },
                        ),
                    ),
                    stay(),
                ),
                KeyCode::Char(c) => if is_digit(c) {
                    (
                        self.prompted(Some(PromptView::GotoLine { input: input.push(c) })),
                        stay(),
                    )
                } else {
                    (self, stay())
                },
                _ => (self, stay()),
            },
            PromptView::LargeFile { selection, size } => match key.code {
                KeyCode::Esc => (self, leave()),
                KeyCode::Left | KeyCode::Right | KeyCode::Tab => (
                    self.prompted(
                        Some(PromptView::LargeFile { selection: selection ^ 1, size }),
                    ),
                    stay(),
                ),
                KeyCode::Enter | KeyCode::Char(' ') => if selection == 0 {
                    (EditorView { force_loaded: true, prompt: None, ..self }, stay())
                } else {
                    (self, leave())
                },
                _ => (self, stay()),
            },
            PromptView::Message { text } => (self.prompted(None), stay()),
        }
    }

    /// What a key does that was pressed with Control, if it means anything.
    pub open spec fn control_step(self, c: char, now: u64) -> Option<(EditorView, EditorAction)> {
        match c {
            'q' => Some(self.close_requested()),
            's' => Some((self, EditorAction::Save { close: false })),
            'w' => Some((self, EditorAction::Save { close: true })),
            'z' => Some((self.undone(), stay())),
            'y' => Some((self.redone(), stay())),
            'd' => Some((self.duplicated(now), stay())),
            'k' => Some((self.killed(now), stay())),
            'g' => Some(
                (self.prompted(Some(PromptView::GotoLine { input: Seq::empty() })), stay()),
            ),
            _ => None,
        }
    }

    /// What a key does while no prompt is shown.
    pub open spec fn plain_step(self, key: KeyEvent, now: u64) -> (EditorView, EditorAction) {
        match key.code {
            KeyCode::Esc => self.close_requested(),
            KeyCode::Left => if key.ctrl {
                (self.moved_word(false), stay())
            } else {
                (self.moved_left(), stay())
            },
            KeyCode::Right => if key.ctrl {
                (self.moved_word(true), stay())
            } else {
                (self.moved_right(), stay())
            },
            KeyCode::Up => (self.moved_up(), stay()),
            KeyCode::Down => (self.moved_down(), stay()),
            KeyCode::Home => (self.at(self.row, 0).scrolled(), stay()),
            KeyCode::End => (self.at(self.row, byte_len(self.line())).scrolled(), stay()),
            KeyCode::PageUp => (self.paged_up(), stay()),
            KeyCode::PageDown => (self.paged_down(), stay()),
            KeyCode::Backspace => (self.backspaced(now), stay()),
            KeyCode::Delete => (self.deleted(now), stay()),
            KeyCode::Enter => (self.line_split(now), stay()),
            KeyCode::Tab => (self.inserted("    "@, now), stay()),
            KeyCode::BackTab => (self.dedented(now), stay()),
            KeyCode::Char(c) => if key.ctrl {
                match self.control_step(c, now) {
                    Some(r) => r,
                    None => (self, stay()),
                }
            } else {
                (self.inserted(seq![c], now), stay())
            },
            KeyCode::Other => (self, stay()),
        }
    }

    /// What a key does.
    pub open spec fn key_step(self, key: KeyEvent, now: u64) -> (EditorView, EditorAction) {
        if !key.press {
            (self, stay())
        } else {
            match self.prompt {
                Some(p) => self.prompt_step(p, key),
                None => self.plain_step(key, now),
            }
        }
    }

    /// Whether a key changes the text at the cursor.
    pub open spec fn edits_at_cursor(self, key: KeyEvent) -> bool {
        key.press && self.prompt is None && (match key.code {
            KeyCode::Char(_) => !key.ctrl,
            KeyCode::Tab | KeyCode::Enter => true,
            KeyCode::Backspace => self.col > 0,
            KeyCode::Delete => self.col < byte_len(self.line()),
            _ => false,
        })
    }

    /// Whether the cursor stands between two characters.
    pub open spec fn between_chars(self) -> bool {
        crate::bytes::on_boundary(self.line(), self.col)
    }
}

} // verus!
