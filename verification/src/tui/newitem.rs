//! The popup that makes a file or a directory.

use vstd::prelude::*;

use crate::keys::{KeyCode, KeyEvent};
use crate::paths::{join, joined};
use crate::text::{chars_of, drop_last_char, push_char, text_opt};
use crate::tui::navigate::{concat, failure};
use crate::tui::{App, AppView, Effect, EffectView, Screen};

verus! {

/// What keys go to in the popup.
#[derive(Clone, Copy, Debug, PartialEq, Eq, Structural)]
pub enum Focus {
    Name,
    Mode,
    Create,
    Cancel,
}

/// An entry that is about to be made in `parent`.
pub struct NewItemState {
    pub parent: String,
    pub is_dir: bool,
    pub name: String,
    /// The permissions, in octal digits.
    pub mode: String,
    pub focus: Focus,
    /// Why it was not made.
    pub error: Option<String>,
}

/// The mathematical form of a [`NewItemState`].
#[verifier::ext_equal]
pub struct NewItemView {
    pub parent: Seq<char>,
    pub is_dir: bool,
    pub name: Seq<char>,
    pub mode: Seq<char>,
    pub focus: Focus,
    pub error: Option<Seq<char>>,
}

impl View for NewItemState {
    type V = NewItemView;

    open spec fn view(&self) -> NewItemView {
        NewItemView {
            parent: self.parent@,
            is_dir: self.is_dir,
            name: self.name@,
            mode: self.mode@,
            focus: self.focus,
            error: text_opt(self.error),
        }
    }
}

pub open spec fn new_item_view(s: Option<NewItemState>) -> Option<NewItemView> {
    match s {
        Some(t) => Some(t@),
        None => None,
    }
}

/// The permissions that are offered.
pub open spec fn usual_mode(is_dir: bool) -> Seq<char> {
    if is_dir {
        "755"@
    } else {
        "644"@
    }
}

/// An entry without a name.
pub open spec fn fresh_item(parent: Seq<char>, is_dir: bool) -> NewItemView {
    NewItemView {
        parent,
        is_dir,
        name: Seq::empty(),
        mode: usual_mode(is_dir),
        focus: Focus::Name,
        error: None,
    }
}

#[verifier::allow_in_spec]
pub fn is_octal(c: char) -> bool
    returns
        '0' <= c && c <= '7',
{
    '0' <= c && c <= '7'
}

/// The number that octal digits stand for.
pub open spec fn octal_value(s: Seq<char>) -> nat
    decreases s.len(),
{
    if s.len() == 0 {
        0
    } else {
        octal_value(s.drop_last()) * 8 + (s.last() as nat - '0' as nat) as nat
    }
}

/// The permissions that a text stands for: one to four octal digits.
pub open spec fn mode_of(s: Seq<char>) -> Option<nat> {
    if 1 <= s.len() <= 4 && forall|i: int| 0 <= i < s.len() ==> is_octal(#[trigger] s[i]) {
        Some(octal_value(s))
    } else {
        None
    }
}

proof fn lemma_octal_bound(s: Seq<char>, n: nat)
    requires
        s.len() <= n <= 4,
        forall|i: int| 0 <= i < s.len() ==> is_octal(#[trigger] s[i]),
    ensures
        n == 0 ==> octal_value(s) == 0,
        n == 1 ==> octal_value(s) < 8,
        n == 2 ==> octal_value(s) < 64,
        n == 3 ==> octal_value(s) < 512,
        n == 4 ==> octal_value(s) < 4096,
    decreases n,
{
    if s.len() > 0 {
        let t = s.drop_last();
        assert forall|i: int| 0 <= i < t.len() implies is_octal(#[trigger] t[i]) by {
            assert(t[i] == s[i]);
        }
        assert(is_octal(s[s.len() - 1]));
        lemma_octal_bound(t, (n - 1) as nat);
    }
}

/// Only permission bits are ever asked for.
pub proof fn modes_are_permissions(s: Seq<char>)
    ensures
        mode_of(s) is Some ==> mode_of(s)->0 <= 0o7777,
{
    if mode_of(s) is Some {
        lemma_octal_bound(s, 4);
    }
}

/// The permissions that are offered are valid.
pub proof fn usual_modes_are_valid()
    ensures
        mode_of(usual_mode(true)) == Some(0o755nat),
        mode_of(usual_mode(false)) == Some(0o644nat),
{
    reveal_strlit("755");
    reveal_strlit("644");
    reveal_with_fuel(octal_value, 4);
    let d = "755"@;
    let f = "644"@;
    assert(d.drop_last().drop_last().drop_last() =~= Seq::<char>::empty());
    assert(f.drop_last().drop_last().drop_last() =~= Seq::<char>::empty());
}

impl Focus {
    #[verifier::allow_in_spec]
    pub fn next(self) -> Focus
        returns
            (match self {
                Focus::Name => Focus::Mode,
                Focus::Mode => Focus::Create,
                Focus::Create => Focus::Cancel,
                Focus::Cancel => Focus::Name,
            }),
    {
        match self {
            Focus::Name => Focus::Mode,
            Focus::Mode => Focus::Create,
            Focus::Create => Focus::Cancel,
            Focus::Cancel => Focus::Name,
        }
    }

    #[verifier::allow_in_spec]
    pub fn previous(self) -> Focus
        returns
            (match self {
                Focus::Name => Focus::Cancel,
                Focus::Mode => Focus::Name,
                Focus::Create => Focus::Mode,
                Focus::Cancel => Focus::Create,
            }),
    {
        match self {
            Focus::Name => Focus::Cancel,
            Focus::Mode => Focus::Name,
            Focus::Create => Focus::Mode,
            Focus::Cancel => Focus::Create,
        }
    }

    /// To the other button, where a button has the focus.
    #[verifier::allow_in_spec]
    pub fn across(self, right: bool) -> Focus
        returns
            (match self {
                Focus::Create | Focus::Cancel => if right {
                    Focus::Cancel
                } else {
                    Focus::Create
                },
                _ => self,
            }),
    {
        match self {
            Focus::Create | Focus::Cancel => if right {
                Focus::Cancel
            } else {
                Focus::Create
            },
            _ => self,
        }
    }
}

impl NewItemView {
    pub open spec fn focused(self, focus: Focus) -> NewItemView {
        NewItemView { focus, ..self }
    }

    /// With a character typed into the field that has the focus.
    pub open spec fn typed(self, c: char) -> NewItemView {
        match self.focus {
            Focus::Name => NewItemView { name: self.name.push(c), error: None, ..self },
            Focus::Mode => NewItemView { mode: self.mode.push(c), error: None, ..self },
            _ => self,
        }
    }

    /// Without the last character of the field that has the focus.
    pub open spec fn erased(self) -> NewItemView {
        match self.focus {
            Focus::Name => NewItemView { name: shortened(self.name), error: None, ..self },
            Focus::Mode => NewItemView { mode: shortened(self.mode), error: None, ..self },
            _ => self,
        }
    }

    pub open spec fn refused(self, why: Seq<char>) -> NewItemView {
        NewItemView { error: Some(why), ..self }
    }

    /// Where it is made.
    pub open spec fn path(self) -> Seq<char> {
        joined(self.parent, self.name)
    }

    /// Why it cannot be made: it has no name, or one that leads elsewhere, or
    /// permissions that are none.
    pub open spec fn problem(self) -> Option<Seq<char>> {
        if self.name.len() == 0 {
            Some("name is empty"@)
        } else if self.name.contains('/') {
            Some("name holds a slash"@)
        } else if mode_of(self.mode) is None {
            Some("mode is not one to four octal digits"@)
        } else {
            None
        }
    }
}

/// A text without its last character, if it has one.
pub open spec fn shortened(s: Seq<char>) -> Seq<char> {
    if s.len() == 0 {
        s
    } else {
        s.drop_last()
    }
}

impl AppView {
    /// With the popup in front, for an entry of the directory that is shown.
    pub open spec fn item_started(self, is_dir: bool) -> AppView {
        AppView {
            new_item: Some(fresh_item(self.root.path@, is_dir)),
            screen: Screen::NewItem,
            ..self
        }
    }

    pub open spec fn with_item(self, n: NewItemView) -> AppView {
        AppView { new_item: Some(n), ..self }
    }

    pub open spec fn item_closed(self) -> AppView {
        AppView { new_item: None, screen: Screen::Main, ..self }
    }

    /// What asking for the entry does: where something is wrong with it, that is
    /// said in the popup, and nothing is made.
    pub open spec fn item_submitted(self, n: NewItemView) -> (AppView, EffectView) {
        match n.problem() {
            Some(why) => (self.with_item(n.refused(why)), EffectView::Nothing),
            None => (
                self,
                EffectView::CreateItem {
                    path: n.path(),
                    mode: mode_of(n.mode)->0 as u32,
                    is_dir: n.is_dir,
                },
            ),
        }
    }

    /// What enter does: it asks for the entry, unless the focus is on cancel.
    pub open spec fn item_entered(self, n: NewItemView) -> (AppView, EffectView) {
        if n.focus == Focus::Cancel {
            (self.item_closed(), EffectView::Nothing)
        } else {
            self.item_submitted(n)
        }
    }

    /// What a key does in the popup.
    #[verifier::opaque]
    pub open spec fn item_step(self, n: NewItemView, key: KeyEvent) -> (AppView, EffectView) {
        match key.code {
            KeyCode::Esc => (self.item_closed(), EffectView::Nothing),
            KeyCode::Enter => self.item_entered(n),
            KeyCode::Tab | KeyCode::Down => (
                self.with_item(n.focused(n.focus.next())),
                EffectView::Nothing,
            ),
            KeyCode::BackTab | KeyCode::Up => (
                self.with_item(n.focused(n.focus.previous())),
                EffectView::Nothing,
            ),
            KeyCode::Left => (
                self.with_item(n.focused(n.focus.across(false))),
                EffectView::Nothing,
            ),
            KeyCode::Right => (
                self.with_item(n.focused(n.focus.across(true))),
                EffectView::Nothing,
            ),
            KeyCode::Backspace => (self.with_item(n.erased()), EffectView::Nothing),
            KeyCode::Char(c) => (self.with_item(n.typed(c)), EffectView::Nothing),
            _ => (self, EffectView::Nothing),
        }
    }

    /// What making the entry changes: the directory is scanned again, or the
    /// popup says why there is no such entry.
    pub open spec fn item_made(self, failed: Option<Seq<char>>, now: u64) -> (
        AppView,
        EffectView,
    ) {
        match (self.new_item, failed) {
            (None, _) => (self, EffectView::Nothing),
            (Some(n), Some(why)) => (self.with_item(n.refused(why)), EffectView::Nothing),
            (Some(n), None) => (
                self.item_closed().flashed("created "@ + n.path(), now),
                EffectView::Rescan { path: self.root.path@ },
            ),
        }
    }
}

fn parse_mode(s: &str) -> (r: Option<u32>)
    ensures
        r is Some <==> mode_of(s@) is Some,
        r is Some ==> r->0 == mode_of(s@)->0,
{
    let chars = chars_of(s);
    if chars.len() == 0 || chars.len() > 4 {
        return None;
    }
    let mut value: u32 = 0;
    let mut i: usize = 0;
    assert(s@.take(0) =~= Seq::<char>::empty());
    while i < chars.len()
        invariant
            i <= chars@.len() <= 4,
            chars@ == s@,
            forall|j: int| 0 <= j < i ==> is_octal(#[trigger] s@[j]),
            value == octal_value(s@.take(i as int)),
        decreases chars@.len() - i,
    {
        let c = chars[i];
        if !is_octal(c) {
            assert(!is_octal(s@[i as int]));
            return None;
        }
        proof {
            lemma_octal_bound(s@.take(i as int), 3);
            assert(s@.take(i + 1).drop_last() =~= s@.take(i as int));
            assert(s@.take(i + 1).last() == c);
        }
        value = value * 8 + (c as u32 - '0' as u32);
        i = i + 1;
    }
    assert(s@.take(i as int) =~= s@);
    Some(value)
}

fn holds_slash(s: &str) -> (r: bool)
    ensures
        r == s@.contains('/'),
{
    let chars = chars_of(s);
    let mut i: usize = 0;
    while i < chars.len()
        invariant
            i <= chars@.len(),
            chars@ == s@,
            forall|j: int| 0 <= j < i ==> s@[j] != '/',
        decreases chars@.len() - i,
    {
        if chars[i] == '/' {
            assert(s@[i as int] == '/');
            return true;
        }
        i = i + 1;
    }
    false
}

impl NewItemState {
    pub fn new(parent: String, is_dir: bool) -> (r: NewItemState)
        ensures
            r@ == fresh_item(parent@, is_dir),
    {
        let mode = if is_dir {
            "755".to_owned()
        } else {
            "644".to_owned()
        };
        let r = NewItemState {
            parent,
            is_dir,
            name: String::new(),
            mode,
            focus: Focus::Name,
            error: None,
        };
        assert(r@ =~= fresh_item(parent@, is_dir));
        r
    }

    /// Types a character.
    pub fn type_char(&mut self, c: char)
        ensures
            final(self)@ == old(self)@.typed(c),
    {
        match self.focus {
            Focus::Name => {
                push_char(&mut self.name, c);
                self.error = None;
            },
            Focus::Mode => {
                push_char(&mut self.mode, c);
                self.error = None;
            },
            _ => {},
        }
        assert(self@ =~= old(self)@.typed(c));
    }

    /// Erases a character.
    pub fn erase(&mut self)
        ensures
            final(self)@ == old(self)@.erased(),
    {
        match self.focus {
            Focus::Name => {
                self.name = drop_last_char(&self.name);
                self.error = None;
            },
            Focus::Mode => {
                self.mode = drop_last_char(&self.mode);
                self.error = None;
            },
            _ => {},
        }
        assert(self@ =~= old(self)@.erased());
    }

    /// The permissions that are asked for, or why the entry cannot be made.
    pub fn check(&self) -> (r: Result<u32, String>)
        ensures
            match r {
                Ok(mode) => self@.problem() is None && mode == mode_of(self@.mode)->0,
                Err(why) => self@.problem() == Some(why@),
            },
    {
        if self.name.as_str().unicode_len() == 0 {
            return Err("name is empty".to_owned());
        }
        if holds_slash(&self.name) {
            return Err("name holds a slash".to_owned());
        }
        match parse_mode(&self.mode) {
            Some(mode) => Ok(mode),
            None => Err("mode is not one to four octal digits".to_owned()),
        }
    }

    /// Where it is made.
    pub fn path(&self) -> (r: String)
        ensures
            r@ == self@.path(),
    {
        join(&self.parent, &self.name)
    }
}

impl App {
    /// Opens the popup for a file or a directory.
    pub fn start_item(&mut self, is_dir: bool)
        ensures
            final(self)@ == old(self)@.item_started(is_dir),
    {
        self.new_item = Some(NewItemState::new(self.root.path.clone(), is_dir));
        self.screen = Screen::NewItem;
        assert(self@ =~= old(self)@.item_started(is_dir));
    }

    fn put_item(&mut self, n: NewItemState)
        ensures
            final(self)@ == old(self)@.with_item(n@),
    {
        self.new_item = Some(n);
        assert(self@ =~= old(self)@.with_item(n@));
    }

    fn close_item(&mut self)
        ensures
            final(self)@ == old(self)@.item_closed(),
    {
        self.new_item = None;
        self.screen = Screen::Main;
        assert(self@ =~= old(self)@.item_closed());
    }

    fn enter_item(&mut self) -> (r: Effect)
        requires
            old(self)@.new_item is Some,
        ensures
            (final(self)@, r@) == old(self)@.item_entered(old(self)@.new_item->0),
            old(self)@.wf() ==> final(self)@.wf(),
    {
        let ghost v = self@;
        match self.new_item.take() {
            None => Effect::Nothing,
            Some(n) => {
                let mut n = n;
                if n.focus == Focus::Cancel {
                    self.close_item();
                    assert(self@ =~= v.item_closed());
                    return Effect::Nothing;
                }
                match n.check() {
                    Err(why) => {
                        n.error = Some(why);
                        assert(n@ =~= v.new_item->0.refused(why@));
                        self.put_item(n);
                        assert(self@ =~= v.with_item(n@));
                        Effect::Nothing
                    },
                    Ok(mode) => {
                        let path = n.path();
                        let is_dir = n.is_dir;
                        self.put_item(n);
                        assert(self@ =~= v);
                        Effect::CreateItem { path, mode, is_dir }
                    },
                }
            },
        }
    }

    fn change_item(&mut self, key: KeyEvent)
        requires
            old(self)@.new_item is Some,
            !(key.code == KeyCode::Esc || key.code == KeyCode::Enter),
        ensures
            (final(self)@, EffectView::Nothing) == old(self)@.item_step(
                old(self)@.new_item->0,
                key,
            ),
            old(self)@.wf() ==> final(self)@.wf(),
    {
        let ghost v = self@;
        proof {
            reveal(AppView::item_step);
        }
        match self.new_item.take() {
            None => {},
            Some(n) => {
                let ghost m = n@;
                let mut n = n;
                match key.code {
                    KeyCode::Tab | KeyCode::Down => {
                        n.focus = n.focus.next();
                        assert(n@ =~= m.focused(m.focus.next()));
                    },
                    KeyCode::BackTab | KeyCode::Up => {
                        n.focus = n.focus.previous();
                        assert(n@ =~= m.focused(m.focus.previous()));
                    },
                    KeyCode::Left => {
                        n.focus = n.focus.across(false);
                        assert(n@ =~= m.focused(m.focus.across(false)));
                    },
                    KeyCode::Right => {
                        n.focus = n.focus.across(true);
                        assert(n@ =~= m.focused(m.focus.across(true)));
                    },
                    KeyCode::Backspace => {
                        n.erase();
                    },
                    KeyCode::Char(c) => {
                        n.type_char(c);
                    },
                    _ => {},
                }
                self.put_item(n);
                assert(self@ =~= v.with_item(n@));
                assert(n@ == m ==> self@ =~= v);
            },
        }
    }

    /// Handles a key while the popup is open.
    pub fn handle_new_item_key(&mut self, key: KeyEvent) -> (r: Effect)
        requires
            old(self)@.wf(),
            old(self)@.new_item is Some,
        ensures
            (final(self)@, r@) == old(self)@.item_step(old(self)@.new_item->0, key),
            final(self)@.wf(),
    {
        if key.code == KeyCode::Esc {
            self.close_item();
            assert(self@ == old(self)@.item_step(old(self)@.new_item->0, key).0) by {
                reveal(AppView::item_step);
            }
            assert(old(self)@.item_step(old(self)@.new_item->0, key).1 is Nothing) by {
                reveal(AppView::item_step);
            }
            return Effect::Nothing;
        }
        if key.code == KeyCode::Enter {
            proof {
                reveal(AppView::item_step);
            }
            return self.enter_item();
        }
        self.change_item(key);
        Effect::Nothing
    }

    /// The entry was made, or was not.
    pub fn item_created(&mut self, outcome: Result<(), String>, now: u64) -> (r: Effect)
        ensures
            (final(self)@, r@) == old(self)@.item_made(failure(outcome), now),
            old(self)@.wf() ==> final(self)@.wf(),
    {
        let ghost v = self@;
        match self.new_item.take() {
            None => {
                assert(self@ =~= v);
                Effect::Nothing
            },
            Some(n) => {
                let mut n = n;
                match outcome {
                    Err(why) => {
                        n.error = Some(why);
                        assert(n@ =~= v.new_item->0.refused(why@));
                        self.put_item(n);
                        assert(self@ =~= v.with_item(n@));
                        Effect::Nothing
                    },
                    Ok(()) => {
                        let path = n.path();
                        self.close_item();
                        assert(self@ =~= v.item_closed());
                        self.flash(concat("created ", &path), now);
                        Effect::Rescan { path: self.root.path.clone() }
                    },
                }
            },
        }
    }
}

/// Nothing is made without a name, under another directory, or with anything but
/// permission bits, whatever is pressed.
pub proof fn only_valid_items_are_made(a: AppView, n: NewItemView, key: KeyEvent)
    requires
        a.item_step(n, key).1 is CreateItem,
    ensures
        n.name.len() > 0,
        !n.name.contains('/'),
        a.item_step(n, key).1->CreateItem_path == joined(n.parent, n.name),
        a.item_step(n, key).1->CreateItem_mode == mode_of(n.mode)->0 <= 0o7777,
        a.item_step(n, key).1->CreateItem_is_dir == n.is_dir,
{
    reveal(AppView::item_step);
    modes_are_permissions(n.mode);
}

/// A failure leaves what was typed as it is, and says why.
pub proof fn failures_keep_the_popup(a: AppView, why: Seq<char>, now: u64)
    requires
        a.new_item is Some,
    ensures
        a.item_made(Some(why), now).0 == a.with_item(a.new_item->0.refused(why)),
        a.item_made(Some(why), now).1 is Nothing,
{
}

} // verus!
