//! Opening and saving files.

use vstd::prelude::*;
use vstd::utf8::{decode_utf8, decode_utf8_encode_utf8, encode_utf8, valid_utf8};

use crate::editor::ascii::{ascii, ascii_bytes, ascii_bytes_are_ascii_text, ascii_lines};
use crate::editor::syntax::{language_of, load_palette, load_syntaxes, pick_syntax};
use crate::editor::{
    snapshot_views, Editor, EditorOutcome, EditorPrompt, EditorView, PromptView, SnapshotView,
    SOFT_FILE_LIMIT,
};
use crate::paths::{file_name, file_name_of, join, joined, parent, parent_of};
use crate::text::{
    chars_of, decimal, decimal_text, ends_with, number, push_char, texts, trim_end_char,
    trimming_cuts_only_trailing, without_trailing,
};

verus! {

/// What came of reading a file.
pub enum FileRead {
    /// Its size could not be found out, and why.
    NoStat(String),
    /// It could not be read, and why.
    NoRead(String),
    Read { size: u64, bytes: Vec<u8> },
}

/// What came of saving a file.
pub enum SaveOutcome {
    Saved,
    /// The temporary file could not be written, and why.
    WriteFailed(String),
    /// It could not be moved into place, and why.
    RenameFailed(String),
}

/// How a file is saved: `body` is written to `temporary`, which is then moved
/// to `target`.
pub struct SavePlan {
    pub temporary: String,
    pub target: String,
    pub body: String,
}

/// The text of bytes, with anything that is not UTF-8 replaced.
pub uninterp spec fn lossy_text(bytes: Seq<u8>) -> Seq<char>;

/// `String::from_utf8_lossy`. The text is a function of the bytes, named
/// `lossy_text`; of valid UTF-8 it is the text that was encoded.
#[verifier::external_body]
fn decode_lossy(bytes: &Vec<u8>) -> (r: String)
    ensures
        r@ == lossy_text(bytes@),
        valid_utf8(bytes@) ==> r@ == decode_utf8(bytes@),
{
    String::from_utf8_lossy(bytes).into_owned()
}

/// The lines of a text: what stands between line ends.
pub open spec fn split_lines(s: Seq<char>) -> Seq<Seq<char>>
    decreases s.len(),
{
    if s.len() == 0 {
        seq![Seq::empty()]
    } else {
        let r = split_lines(s.drop_last());
        if s.last() == '\n' {
            r.push(Seq::empty())
        } else {
            r.drop_last().push(r.last().push(s.last()))
        }
    }
}

/// Lines with line ends between them.
pub open spec fn join_lines(lines: Seq<Seq<char>>) -> Seq<char>
    decreases lines.len(),
{
    if lines.len() == 0 {
        Seq::empty()
    } else if lines.len() == 1 {
        lines[0]
    } else {
        join_lines(lines.drop_last()).push('\n') + lines.last()
    }
}

/// The lines of a file: without the carriage returns behind them.
pub open spec fn file_lines(s: Seq<char>) -> Seq<Seq<char>> {
    split_lines(s).map_values(|l: Seq<char>| without_trailing(l, '\r'))
}

/// Whether bytes look like those of a program or an image: one of the first is
/// zero.
pub open spec fn looks_binary(bytes: Seq<u8>) -> bool {
    exists|i: int| 0 <= i < bytes.len() && i < 8192 && #[trigger] bytes[i] == 0
}

/// The editor for a file that was read.
pub open spec fn opened(path: Seq<char>, size: u64, bytes: Seq<u8>) -> EditorView {
    EditorView {
        path,
        lines: file_lines(lossy_text(bytes)),
        row: 0,
        col: 0,
        scroll_row: 0,
        scroll_col: 0,
        modified: false,
        language: language_of(path),
        syntax_name: language_of(path),
        grammar: language_of(path),
        prompt: if looks_binary(bytes) || size > SOFT_FILE_LIMIT {
            Some(PromptView::LargeFile { selection: 1, size })
        } else {
            None
        },
        force_loaded: false,
        undo: Seq::empty(),
        redo: Seq::empty(),
        last_edit: None,
        size: (80, 24),
    }
}

/// Splitting and joining gives the text back.
pub proof fn join_reverts_split(s: Seq<char>)
    ensures
        join_lines(split_lines(s)) == s,
        split_lines(s).len() > 0,
        forall|i: int| 0 <= i < split_lines(s).len() ==> !(#[trigger] split_lines(s)[i]).contains('\n'),
    decreases s.len(),
{
    if s.len() > 0 {
        let r = split_lines(s.drop_last());
        let t = split_lines(s);
        join_reverts_split(s.drop_last());
        assert(s =~= s.drop_last().push(s.last()));
        if s.last() == '\n' {
            assert(t.drop_last() =~= r);
            assert(join_lines(t) =~= s);
            assert forall|i: int| 0 <= i < t.len() implies !(#[trigger] t[i]).contains('\n') by {
                if i < r.len() {
                    assert(t[i] == r[i]);
                }
            }
        } else {
            assert(t.drop_last() =~= r.drop_last());
            assert(join_lines(t) =~= s) by {
                if r.len() == 1 {
                    assert(r[0] == s.drop_last());
                    assert(t[0] =~= s);
                }
            }
            assert forall|i: int| 0 <= i < t.len() implies !(#[trigger] t[i]).contains('\n') by {
                if i < r.len() - 1 {
                    assert(t[i] == r[i]);
                } else {
                    assert(!r[r.len() - 1].contains('\n'));
                    assert forall|j: int| 0 <= j < t[i].len() implies t[i][j] != '\n' by {
                        if j < r.last().len() {
                            assert(r[r.len() - 1][j] != '\n');
                        }
                    }
                }
            }
        }
    }
}

/// A line end splits off the rest.
proof fn lemma_split_append(a: Seq<char>, b: Seq<char>)
    requires
        !b.contains('\n'),
    ensures
        split_lines(a.push('\n') + b) == split_lines(a).push(b),
        split_lines(b) == seq![b],
    decreases b.len(),
{
    let s = a.push('\n') + b;
    if b.len() == 0 {
        assert(b =~= Seq::<char>::empty());
        assert(s =~= a.push('\n'));
        assert(s.drop_last() =~= a);
        assert(split_lines(s) =~= split_lines(a).push(b));
        assert(split_lines(b) =~= seq![b]);
    } else {
        let c = b.drop_last();
        assert forall|i: int| 0 <= i < c.len() implies c[i] != '\n' by {
            assert(b[i] != '\n');
        }
        lemma_split_append(a, c);
        assert(s.drop_last() =~= a.push('\n') + c);
        assert(b.contains(b.last()));
        assert(s.last() == b.last());
        assert(split_lines(a).push(c).drop_last() =~= split_lines(a));
        assert(c.push(b.last()) =~= b);
        assert(split_lines(s) =~= split_lines(a).push(b));
        assert(seq![c].drop_last() =~= Seq::<Seq<char>>::empty());
        assert(split_lines(b) =~= seq![b]);
    }
}

/// Joining and splitting gives the lines back, where there are any and none of
/// them holds a line end.
pub proof fn split_reverts_join(lines: Seq<Seq<char>>)
    requires
        lines.len() > 0,
        forall|i: int| 0 <= i < lines.len() ==> !(#[trigger] lines[i]).contains('\n'),
    ensures
        split_lines(join_lines(lines)) == lines,
    decreases lines.len(),
{
    let last = lines[lines.len() - 1];
    assert(!last.contains('\n'));
    if lines.len() == 1 {
        lemma_split_append(Seq::empty(), last);
        assert(lines =~= seq![last]);
    } else {
        let init = lines.drop_last();
        assert forall|i: int| 0 <= i < init.len() implies !(#[trigger] init[i]).contains('\n') by {
            assert(init[i] == lines[i]);
        }
        split_reverts_join(init);
        lemma_split_append(join_lines(init), last);
        assert(init.push(last) =~= lines);
    }
}

/// What is saved is what is opened: the lines that are written are read back,
/// as long as none of them holds a line end or ends in a carriage return.
pub proof fn saved_lines_are_read_back(lines: Seq<Seq<char>>)
    requires
        lines.len() > 0,
        forall|i: int|
            0 <= i < lines.len() ==> !(#[trigger] lines[i]).contains('\n') && !ends_with(
                lines[i],
                '\r',
            ),
    ensures
        file_lines(join_lines(lines)) == lines,
{
    split_reverts_join(lines);
    assert(file_lines(join_lines(lines)) =~= lines);
}

/// Saving a file that was only opened writes it as it was, as long as no line
/// of it ends in a carriage return.
pub proof fn opening_and_saving_changes_nothing(s: Seq<char>)
    requires
        forall|i: int| 0 <= i < split_lines(s).len() ==> !ends_with(#[trigger] split_lines(s)[i], '\r'),
    ensures
        join_lines(file_lines(s)) == s,
{
    join_reverts_split(s);
    assert(file_lines(s) =~= split_lines(s));
}

/// Saving a file that was only opened writes the bytes that were read, where
/// they are UTF-8 and hold no carriage return.
pub proof fn opening_and_saving_changes_no_byte(bytes: Seq<u8>)
    requires
        valid_utf8(bytes),
        !bytes.contains(13),
    ensures
        encode_utf8(join_lines(file_lines(decode_utf8(bytes)))) == bytes,
{
    let s = decode_utf8(bytes);
    decode_utf8_encode_utf8(bytes);
    if s.contains('\r') {
        lemma_return_is_encoded(s);
    }
    assert forall|i: int| 0 <= i < split_lines(s).len() implies !ends_with(
        #[trigger] split_lines(s)[i],
        '\r',
    ) by {
        let l = split_lines(s)[i];
        if l.len() > 0 {
            lemma_line_chars(s, i, l.len() - 1);
        }
    }
    opening_and_saving_changes_nothing(s);
}

/// Every line end starts a line.
pub proof fn line_ends_start_lines(s: Seq<char>)
    ensures
        split_lines(s).len() == 1 + s.filter(|c: char| c == '\n').len(),
        file_lines(s).len() == split_lines(s).len(),
    decreases s.len(),
{
    reveal(Seq::filter);
    if s.len() > 0 {
        line_ends_start_lines(s.drop_last());
    }
}

/// The characters of a line are characters of the text.
proof fn lemma_line_chars(s: Seq<char>, i: int, j: int)
    requires
        0 <= i < split_lines(s).len(),
        0 <= j < split_lines(s)[i].len(),
    ensures
        s.contains(split_lines(s)[i][j]),
    decreases s.len(),
{
    if s.len() > 0 {
        let d = s.drop_last();
        let r = split_lines(d);
        let t = split_lines(s);
        let c = t[i][j];
        join_reverts_split(d);
        assert(s.contains(s.last())) by {
            assert(s[s.len() - 1] == s.last());
        }
        if i < r.len() && j < r[i].len() && c == r[i][j] {
            lemma_line_chars(d, i, j);
            let k = choose|k: int| 0 <= k < d.len() && d[k] == c;
            assert(s[k] == c);
        } else if s.last() == '\n' {
            assert(i < r.len() ==> t[i] == r[i]);
        } else {
            if i < r.len() - 1 {
                assert(t[i] == r[i]);
            } else {
                assert(t[i] == r.last().push(s.last()));
                assert(c == s.last());
            }
        }
    }
}

proof fn lemma_return_is_encoded(s: Seq<char>)
    requires
        s.contains('\r'),
    ensures
        encode_utf8(s).contains(13),
    decreases s.len(),
{
    let k = choose|k: int| 0 <= k < s.len() && s[k] == '\r';
    let head = vstd::utf8::encode_scalar(s[0] as u32);
    let rest = encode_utf8(s.drop_first());
    if k == 0 {
        assert((13u32 & 0x7f) as u8 == 13u8) by (bit_vector);
        assert((head + rest)[0] == 13);
    } else {
        assert(s.drop_first()[k - 1] == '\r');
        lemma_return_is_encoded(s.drop_first());
        let j = choose|j: int| 0 <= j < rest.len() && rest[j] == 13;
        assert((head + rest)[head.len() + j] == 13);
    }
}

/// The lines of an ASCII text are ASCII.
proof fn lemma_lines_of_ascii(s: Seq<char>)
    requires
        ascii(s),
    ensures
        ascii_lines(file_lines(s)),
{
    let t = file_lines(s);
    assert forall|i: int| 0 <= i < t.len() implies ascii(#[trigger] t[i]) by {
        let l = split_lines(s)[i];
        trimming_cuts_only_trailing(l, '\r');
        assert forall|j: int| 0 <= j < t[i].len() implies (#[trigger] t[i][j]) as u32 <= 0x7f by {
            assert(l.take(t[i].len() as int)[j] == l[j]);
            lemma_line_chars(s, i, j);
            let k = choose|k: int| 0 <= k < s.len() && s[k] == l[j];
            assert(s[k] as u32 <= 0x7f);
        }
    }
}

proof fn lemma_file_lines_nonempty(s: Seq<char>)
    ensures
        file_lines(s).len() > 0,
{
    join_reverts_split(s);
}

fn lines_of(text: &str) -> (r: Vec<String>)
    ensures
        texts(r@) == file_lines(text@),
{
    let chars = chars_of(text);
    let mut out: Vec<String> = Vec::new();
    let mut cur = String::new();
    let mut i: usize = 0;
    let ghost f = |l: Seq<char>| without_trailing(l, '\r');
    assert(text@.take(0) =~= Seq::<char>::empty());
    proof {
        assert(split_lines(text@.take(0)) =~= seq![Seq::<char>::empty()]);
        assert(texts(out@) =~= Seq::<Seq<char>>::empty());
        assert(split_lines(text@.take(0)).drop_last() =~= Seq::<Seq<char>>::empty());
        assert(split_lines(text@.take(0)).drop_last().map_values(f) =~= Seq::<Seq<char>>::empty());
    }
    while i < chars.len()
        invariant
            i <= chars@.len(),
            chars@ == text@,
            f == (|l: Seq<char>| without_trailing(l, '\r')),
            split_lines(text@.take(i as int)).len() > 0,
            cur@ == split_lines(text@.take(i as int)).last(),
            texts(out@) == split_lines(text@.take(i as int)).drop_last().map_values(f),
        decreases chars@.len() - i,
    {
        let ghost t = text@.take(i + 1);
        let ghost r = split_lines(text@.take(i as int));
        assert(t.drop_last() =~= text@.take(i as int));
        assert(t.last() == chars@[i as int]);
        if chars[i] == '\n' {
            let ghost before = texts(out@);
            let line = trim_end_char(&cur, '\r');
            out.push(line);
            assert(texts(out@) =~= before.push(f(r.last())));
            cur = String::new();
            assert(split_lines(t).drop_last() =~= r);
            assert(r.map_values(f) =~= r.drop_last().map_values(f).push(f(r.last())));
            assert(cur@ =~= Seq::<char>::empty());
        } else {
            push_char(&mut cur, chars[i]);
            assert(split_lines(t).drop_last() =~= r.drop_last());
        }
        i = i + 1;
    }
    let ghost r = split_lines(text@);
    assert(text@.take(i as int) =~= text@);
    let ghost before = texts(out@);
    let line = trim_end_char(&cur, '\r');
    out.push(line);
    assert(texts(out@) =~= before.push(f(r.last())));
    assert(r.map_values(f) =~= r.drop_last().map_values(f).push(f(r.last())));
    out
}

fn has_zero(bytes: &Vec<u8>) -> (r: bool)
    ensures
        r == looks_binary(bytes@),
{
    let mut i: usize = 0;
    while i < bytes.len() && i < 8192
        invariant
            i <= bytes@.len(),
            i <= 8192,
            forall|j: int| 0 <= j < i ==> #[trigger] bytes@[j] != 0,
        decreases bytes@.len() - i,
    {
        if bytes[i] == 0 {
            return true;
        }
        i = i + 1;
    }
    false
}

/// Why a file could not be opened.
pub open spec fn open_error(path: Seq<char>, verb: Seq<char>, why: Seq<char>) -> Seq<char> {
    "cannot "@ + verb + " "@ + path + ": "@ + why
}

fn describe(path: &str, verb: &str, why: &str) -> (r: String)
    ensures
        r@ == open_error(path@, verb@, why@),
{
    let mut s = "cannot ".to_owned();
    s.append(verb);
    s.append(" ");
    s.append(path);
    s.append(": ");
    s.append(why);
    s
}

/// The name of the temporary file beside a file.
pub open spec fn temporary_name(path: Seq<char>, pid: u32) -> Seq<char> {
    "."@ + (match file_name_of(path) {
        Some(n) => n,
        None => "file"@,
    }) + ".diskvis-"@ + decimal_text(pid as nat) + ".tmp"@
}

/// The path of the temporary file beside a file.
pub open spec fn temporary_path(path: Seq<char>, pid: u32) -> Seq<char> {
    match parent_of(path) {
        Some(dir) => joined(dir, temporary_name(path, pid)),
        None => temporary_name(path, pid),
    }
}

/// What is said of a file that was saved or not.
pub open spec fn save_message(path: Seq<char>, pid: u32, outcome: SaveOutcome) -> Seq<char> {
    match outcome {
        SaveOutcome::Saved => "saved "@ + path,
        SaveOutcome::WriteFailed(why) => "save failed: write "@ + temporary_path(path, pid) + ": "@
            + why@,
        SaveOutcome::RenameFailed(why) => "save failed: rename: "@ + why@,
    }
}

fn join_all(lines: &Vec<String>) -> (r: String)
    ensures
        r@ == join_lines(texts(lines@)),
{
    let ghost all = texts(lines@);
    let mut s = String::new();
    let mut i: usize = 0;
    assert(all.take(0) =~= Seq::<Seq<char>>::empty());
    assert(s@ =~= Seq::<char>::empty());
    while i < lines.len()
        invariant
            i <= lines@.len(),
            all == texts(lines@),
            s@ == join_lines(all.take(i as int)),
        decreases lines@.len() - i,
    {
        let ghost before = s@;
        if i > 0 {
            push_char(&mut s, '\n');
        }
        s.append(&lines[i]);
        i = i + 1;
        assert(all.take(i as int).drop_last() =~= all.take(i - 1));
        assert(all.take(i as int).last() == lines@[i - 1]@);
        assert(s@ =~= join_lines(all.take(i as int)));
    }
    assert(all.take(i as int) =~= all);
    s
}

impl Editor {
    /// Opens a file from what was read of it. Of UTF-8 the text is the one that
    /// was encoded, and without carriage returns it is saved byte for byte.
    pub fn open(path: String, read: FileRead) -> (r: Result<Editor, String>)
        ensures
            match read {
                FileRead::NoStat(why) => r is Err && r->Err_0@ == open_error(
                    path@,
                    "stat"@,
                    why@,
                ),
                FileRead::NoRead(why) => r is Err && r->Err_0@ == open_error(
                    path@,
                    "read"@,
                    why@,
                ),
                FileRead::Read { size, bytes } => r is Ok && r->Ok_0@ == opened(path@, size, bytes@)
                    && r->Ok_0@.wf(),
            },
            read matches FileRead::Read { size, bytes } ==> {
                &&& valid_utf8(bytes@) ==> lossy_text(bytes@) == decode_utf8(bytes@)
                &&& valid_utf8(bytes@) && !bytes@.contains(13) ==> encode_utf8(
                    join_lines(r->Ok_0@.lines),
                ) == bytes@
                &&& ascii_bytes(bytes@) ==> r->Ok_0@.ascii()
            },
    {
        match read {
            FileRead::NoStat(why) => Err(describe(&path, "stat", &why)),
            FileRead::NoRead(why) => Err(describe(&path, "read", &why)),
            FileRead::Read { size, bytes } => {
                let text = decode_lossy(&bytes);
                let lines = lines_of(&text);
                proof {
                    lemma_file_lines_nonempty(text@);
                    if valid_utf8(bytes@) && !bytes@.contains(13) {
                        opening_and_saving_changes_no_byte(bytes@);
                    }
                    if ascii_bytes(bytes@) {
                        ascii_bytes_are_ascii_text(bytes@);
                        lemma_lines_of_ascii(text@);
                    }
                }
                let syntaxes = load_syntaxes();
                let palette = load_palette();
                let syntax = pick_syntax(&syntaxes, &path);
                let language = syntax.name();
                let syntax_name = syntax.name();
                let prompt = if has_zero(&bytes) || size > SOFT_FILE_LIMIT {
                    Some(EditorPrompt::LargeFile { selection: 1, size })
                } else {
                    None
                };
                let ed = Editor {
                    path,
                    lines,
                    cursor: (0, 0),
                    scroll_row: 0,
                    scroll_col: 0,
                    modified: false,
                    language,
                    syntax_name,
                    prompt,
                    force_loaded: false,
                    syntaxes,
                    palette,
                    syntax,
                    undo_stack: Vec::new(),
                    redo_stack: Vec::new(),
                    last_edit_at: None,
                    last_size: (80, 24),
                };
                assert(snapshot_views(ed.undo_stack@) =~= Seq::<SnapshotView>::empty());
                assert(snapshot_views(ed.redo_stack@) =~= Seq::<SnapshotView>::empty());
                assert(ed@ =~= opened(path@, size, bytes@));
                Ok(ed)
            },
        }
    }

    /// How the file is saved by the process `pid`.
    pub fn save_plan(&self, pid: u32) -> (r: SavePlan)
        ensures
            r.temporary@ == temporary_path(self@.path, pid),
            r.target@ == self@.path,
            r.body@ == join_lines(self@.lines),
    {
        let mut name = ".".to_owned();
        match file_name(&self.path) {
            Some(n) => {
                name.append(&n);
            },
            None => {
                name.append("file");
            },
        }
        name.append(".diskvis-");
        name.append(&decimal(pid as u64));
        name.append(".tmp");
        let temporary = match parent(&self.path) {
            Some(dir) => join(&dir, &name),
            None => name,
        };
        SavePlan { temporary, target: self.path.clone(), body: join_all(&self.lines) }
    }

    /// What becomes of the editor once the file was saved, or was not.
    pub fn save_done(&mut self, pid: u32, outcome: SaveOutcome, close: bool) -> (r: EditorOutcome)
        requires
            old(self)@.wf(),
        ensures
            final(self)@ == (EditorView {
                modified: old(self)@.modified && outcome !is Saved,
                ..old(self)@
            }).flashed(save_message(old(self)@.path, pid, outcome)),
            r == (if close && outcome is Saved {
                EditorOutcome::Close
            } else {
                EditorOutcome::Continue
            }),
            final(self)@.wf(),
    {
        match outcome {
            SaveOutcome::Saved => {
                self.modified = false;
                let mut s = "saved ".to_owned();
                s.append(&self.path);
                self.flash(s);
                if close {
                    return EditorOutcome::Close;
                }
            },
            SaveOutcome::WriteFailed(why) => {
                let plan = self.save_plan(pid);
                let mut s = "save failed: write ".to_owned();
                s.append(&plan.temporary);
                s.append(": ");
                s.append(&why);
                self.flash(s);
            },
            SaveOutcome::RenameFailed(why) => {
                let mut s = "save failed: rename: ".to_owned();
                s.append(&why);
                self.flash(s);
            },
        }
        EditorOutcome::Continue
    }

    /// The line at the top of the editor.
    pub fn title(&self) -> (r: String)
        ensures
            r@ == title_text(self@),
    {
        let mut s = self.path.clone();
        s.append("  ·  ");
        s.append(&self.language);
        s.append("  ·  L");
        s.append(&number(self.cursor.0 as u128 + 1, 10));
        s.append(":C");
        s.append(&number(self.cursor.1 as u128 + 1, 10));
        if self.modified {
            s.append("  [modified]");
        }
        assert(s@ =~= title_text(self@));
        s
    }

    /// The line at the bottom of the editor.
    pub fn hint(&self) -> (r: &'static str)
        ensures
            r@ == hint_text(),
    {
        "Ctrl-S save  Ctrl-W save & close  Ctrl-Q close  Ctrl-Z/Y undo/redo  Ctrl-D dup  Ctrl-K kill  Ctrl-G goto"
    }
}

/// The line at the top of the editor: the file, its language, the place of the
/// cursor counted from one, and whether there are unsaved changes.
pub open spec fn title_text(v: EditorView) -> Seq<char> {
    v.path + "  ·  "@ + v.language + "  ·  L"@ + decimal_text(v.row + 1) + ":C"@ + decimal_text(
        v.col + 1,
    ) + (if v.modified {
        "  [modified]"@
    } else {
        Seq::empty()
    })
}

/// The line at the bottom of the editor.
pub open spec fn hint_text() -> Seq<char> {
    "Ctrl-S save  Ctrl-W save & close  Ctrl-Q close  Ctrl-Z/Y undo/redo  Ctrl-D dup  Ctrl-K kill  Ctrl-G goto"@
}

} // verus!
