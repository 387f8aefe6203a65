//! The path picker, the permissions and the editor: they take all keys while
//! they are open.

use vstd::prelude::*;

use crate::editor::file::{save_message, SaveOutcome};
use crate::editor::{Editor, EditorAction, EditorOutcome, EditorView};
use crate::keys::{KeyCode, KeyEvent};
use crate::text::{chars_of, decimal, decimal_text, drop_last_char, push_char};
use crate::tui::navigate::{concat, concat3, failure};
use crate::tui::perms::{PermsState, PermsView};
use crate::tui::picker::{drop_component, fresh_picker, req_view, without_component};
use crate::tui::rows::{snap_cursor_to_selectable, snapped};
use crate::tui::spotlight::{
    expand_tilde, expanded, ReqView, SpotlightReq, SpotlightResp, SpotlightState, SpotlightView,
};
use crate::tui::{App, AppView, Effect, EffectView, Env, Screen};

verus! {

/// A path in which each two slashes in a row have become one.
pub open spec fn single_slashes(s: Seq<char>) -> Seq<char>
    decreases s.len(),
{
    if s.len() == 0 {
        s
    } else if s.len() > 1 && s[0] == '/' && s[1] == '/' {
        seq!['/'] + single_slashes(s.skip(2))
    } else {
        seq![s[0]] + single_slashes(s.skip(1))
    }
}

/// A path in which each two slashes in a row have become one.
fn merge_slashes(s: &str) -> (r: String)
    ensures
        r@ == single_slashes(s@),
{
    let chars = chars_of(s);
    let ghost v = s@;
    let mut out = String::new();
    let mut i: usize = 0;
    assert(v.skip(0) =~= v);
    assert(out@ + single_slashes(v) =~= single_slashes(v));
    while i < chars.len()
        invariant
            i <= chars@.len(),
            chars@ == v,
            out@ + single_slashes(v.skip(i as int)) == single_slashes(v),
        decreases chars@.len() - i,
    {
        let ghost rest = v.skip(i as int);
        let ghost before = out@;
        let c = chars[i];
        push_char(&mut out, c);
        if c == '/' && i < chars.len() - 1 && chars[i + 1] == '/' {
            assert(rest[0] == '/' && rest[1] == '/');
            assert(rest.skip(2) =~= v.skip(i + 2));
            i = i + 2;
        } else {
            assert(rest.len() > 1 ==> rest[1] == chars@[i + 1]);
            assert(rest.skip(1) =~= v.skip(i + 1));
            i = i + 1;
        }
        assert(before + single_slashes(rest) =~= out@ + single_slashes(v.skip(i as int)));
    }
    assert(v.skip(i as int) =~= Seq::<char>::empty());
    assert(out@ =~= single_slashes(v));
    out
}

/// The request of the picker, if any, as an effect.
pub open spec fn asks(req: Option<ReqView>) -> EffectView {
    match req {
        Some(q) => EffectView::Query(q),
        None => EffectView::Nothing,
    }
}

fn ask(req: Option<SpotlightReq>) -> (r: Effect)
    ensures
        r@ == asks(req_view(req)),
{
    match req {
        Some(q) => Effect::Query(q),
        None => Effect::Nothing,
    }
}

impl SpotlightView {
    /// With the previous entry selected, where there is one.
    pub open spec fn selected_above(self) -> SpotlightView {
        if self.selected > 0 {
            SpotlightView { selected: (self.selected - 1) as nat, ..self }
        } else {
            self
        }
    }

    /// With the next entry selected, where there is one.
    pub open spec fn selected_below(self) -> SpotlightView {
        if self.selected + 1 < self.candidates.len() {
            SpotlightView { selected: self.selected + 1, ..self }
        } else {
            self
        }
    }

    /// What a key does to the picker, and what it asks for; not for the keys
    /// that close it.
    pub open spec fn key_step(self, key: KeyEvent, now: u64, home: Option<Seq<char>>) -> (
        SpotlightView,
        Option<ReqView>,
    ) {
        match key.code {
            KeyCode::Up => (self.selected_above(), None),
            KeyCode::Down => (self.selected_below(), None),
            KeyCode::Tab | KeyCode::Right => self.completed(now, home),
            KeyCode::Backspace => self.retyped(
                if self.input.len() == 0 {
                    self.input
                } else {
                    self.input.drop_last()
                },
                now,
                home,
            ),
            KeyCode::Char(c) => if key.ctrl && c == 'w' {
                self.retyped(without_component(self.input), now, home)
            } else if key.ctrl && c == 'u' {
                self.retyped(Seq::empty(), now, home)
            } else {
                self.typed(self.input.push(c), now).refreshed(c == '/', now, home)
            },
            _ => (self, None),
        }
    }
}

impl SpotlightState {
    /// Handles a key that does not close the picker.
    pub fn handle_key(&mut self, key: KeyEvent, now: u64, home: Option<&str>) -> (r: Option<
        SpotlightReq,
    >)
        requires
            old(self)@.wf(),
        ensures
            (final(self)@, req_view(r)) == old(self)@.key_step(
                key,
                now,
                crate::tui::spotlight::opt_text(home),
            ),
            final(self)@.wf(),
    {
        match key.code {
            KeyCode::Up => {
                if self.selected > 0 {
                    self.selected = self.selected - 1;
                }
                assert(self@ =~= old(self)@.selected_above());
                None
            },
            KeyCode::Down => {
                if self.candidates.len() > 0 && self.selected < self.candidates.len() - 1 {
                    self.selected = self.selected + 1;
                }
                assert(self@ =~= old(self)@.selected_below());
                None
            },
            KeyCode::Tab | KeyCode::Right => self.complete(now, home),
            KeyCode::Backspace => {
                let input = drop_last_char(&self.input);
                self.retype(input, now, home)
            },
            KeyCode::Char(c) => {
                if key.ctrl && c == 'w' {
                    let input = drop_component(&self.input);
                    self.retype(input, now, home)
                } else if key.ctrl && c == 'u' {
                    let empty = String::new();
                    assert(empty@ =~= Seq::<char>::empty());
                    self.retype(empty, now, home)
                } else {
                    let mut input = self.input.clone();
                    push_char(&mut input, c);
                    self.set_input(input, now);
                    self.refresh(c == '/', now, home)
                }
            },
            _ => None,
        }
    }
}

impl PermsView {
    /// What a key does to the permissions while they are to be confirmed.
    pub open spec fn confirming(self, key: KeyEvent) -> PermsView {
        match key.code {
            KeyCode::Esc | KeyCode::Enter => PermsView { confirm_recursive: false, ..self },
            KeyCode::Left | KeyCode::Right | KeyCode::Tab => PermsView {
                confirm_cursor: self.confirm_cursor ^ 1,
                ..self
            },
            KeyCode::Char(c) => if c == ' ' {
                PermsView { confirm_recursive: false, ..self }
            } else {
                self
            },
            _ => self,
        }
    }

    /// Whether a key says yes.
    pub open spec fn says_yes(self, key: KeyEvent) -> bool {
        (key.code == KeyCode::Enter || key.code == KeyCode::Char(' ')) && self.confirm_cursor == 0
    }

    /// With the question whether to apply to everything below; no is selected.
    pub open spec fn asking(self) -> PermsView {
        PermsView { confirm_recursive: true, confirm_cursor: 1, ..self }
    }
}

/// What came of applying permissions to everything below an entry.
pub enum ApplyOutcome {
    /// The entry is not there.
    Missing,
    /// They were applied to so many entries.
    Applied(usize),
    /// They could not be applied to one, and why.
    Failed(String),
}

impl AppView {
    pub open spec fn picking(self, s: SpotlightView) -> AppView {
        AppView { spotlight: Some(s), ..self }
    }

    pub open spec fn without_picker(self) -> AppView {
        AppView { spotlight: None, ..self }
    }

    /// With the picker in front, at the directory that is shown.
    pub open spec fn picker_opened(self, now: u64, home: Option<Seq<char>>) -> (
        AppView,
        EffectView,
    ) {
        let (s, req) = fresh_picker(single_slashes(self.root.path@.push('/')), now).refreshed(
            true,
            now,
            home,
        );
        (self.picking(s), asks(req))
    }

    /// What the picker asks for once typing has rested.
    pub open spec fn ticked(self, now: u64, home: Option<Seq<char>>) -> (AppView, EffectView) {
        match self.spotlight {
            None => (self, EffectView::Nothing),
            Some(s) => {
                let (t, req) = s.refreshed(false, now, home);
                (self.picking(t), asks(req))
            },
        }
    }

    /// What the answer to a request of the picker changes.
    pub open spec fn listing_taken(self, resp: SpotlightResp, home: Option<Seq<char>>) -> AppView {
        match self.spotlight {
            None => self,
            Some(s) => self.picking(
                s.answered(resp.generation, resp.parent@, resp.entries@, home),
            ),
        }
    }

    /// What a key does while the picker is open: it goes to the selected entry,
    /// else to the path that was typed.
    pub open spec fn picker_step(
        self,
        s: SpotlightView,
        key: KeyEvent,
        now: u64,
        home: Option<Seq<char>>,
    ) -> (AppView, EffectView) {
        match key.code {
            KeyCode::Esc => (self.without_picker(), EffectView::Nothing),
            KeyCode::Enter => if s.selected < s.candidates.len() {
                self.without_picker().drilled(s.candidates[s.selected as int].path@)
            } else {
                (self, EffectView::GoToTyped { path: expanded(s.input, home) })
            },
            _ => {
                let (t, req) = s.key_step(key, now, home);
                (self.picking(t), asks(req))
            },
        }
    }

    /// Where a typed path leads, once it is known whether it is a directory.
    pub open spec fn typed_checked(self, path: Seq<char>, is_dir: bool, now: u64) -> (
        AppView,
        EffectView,
    ) {
        if is_dir {
            self.without_picker().drilled(path)
        } else {
            (self.flashed("spotlight: no valid path"@, now), EffectView::Nothing)
        }
    }

    pub open spec fn with_perms(self, p: PermsView) -> AppView {
        AppView { perms: Some(p), ..self }
    }

    pub open spec fn perms_closed(self) -> AppView {
        AppView { perms: None, screen: Screen::Main, ..self }
    }

    /// What a button of the permissions does.
    pub open spec fn perms_button(self, p: PermsView, now: u64, root: bool) -> (
        AppView,
        EffectView,
    ) {
        if p.cursor == 12 {
            if root {
                (self, EffectView::ApplyPerms { path: p.path, mode: p.mode })
            } else {
                (self.flashed("apply requires sudo/root"@, now), EffectView::Nothing)
            }
        } else if p.cursor == 13 {
            (self.with_perms(p.asking()), EffectView::Nothing)
        } else if p.cursor == 14 {
            (self.perms_closed(), EffectView::Nothing)
        } else {
            (self, EffectView::Nothing)
        }
    }

    /// What the cell under the cursor does.
    pub open spec fn perms_entered(self, p: PermsView, now: u64, root: bool) -> (
        AppView,
        EffectView,
    ) {
        if p.cursor < 12 {
            (self.with_perms(p.toggled()), EffectView::Nothing)
        } else {
            self.perms_button(p, now, root)
        }
    }

    /// What a key does while the permissions are open.
    pub open spec fn perms_step(self, p: PermsView, key: KeyEvent, now: u64, root: bool) -> (
        AppView,
        EffectView,
    ) {
        if p.confirm_recursive {
            let a = self.with_perms(p.confirming(key));
            if !p.says_yes(key) {
                (a, EffectView::Nothing)
            } else if root {
                (a, EffectView::ApplyPermsRecursive { path: p.path, mode: p.mode })
            } else {
                (a.flashed("recursive apply requires sudo/root"@, now), EffectView::Nothing)
            }
        } else {
            match key.code {
                KeyCode::Esc => (self.perms_closed(), EffectView::Nothing),
                KeyCode::Left => (self.with_perms(p.moved(-1, 0)), EffectView::Nothing),
                KeyCode::Right => (self.with_perms(p.moved(1, 0)), EffectView::Nothing),
                KeyCode::Up => (self.with_perms(p.moved(0, -1)), EffectView::Nothing),
                KeyCode::Down => (self.with_perms(p.moved(0, 1)), EffectView::Nothing),
                KeyCode::Enter => self.perms_entered(p, now, root),
                KeyCode::Char(c) => if c == 'q' || c == 'i' {
                    (self.perms_closed(), EffectView::Nothing)
                } else if c == ' ' {
                    self.perms_entered(p, now, root)
                } else {
                    (self, EffectView::Nothing)
                },
                _ => (self, EffectView::Nothing),
            }
        }
    }

    /// What applying the permissions changes.
    pub open spec fn perms_written(self, failed: Option<Seq<char>>, now: u64) -> AppView {
        match failed {
            None => self.flashed("permissions applied"@, now),
            Some(why) => self.flashed("apply failed: "@ + why, now),
        }
    }

    /// What applying the permissions to everything below changes.
    pub open spec fn perms_written_below(self, outcome: ApplyOutcome, now: u64) -> AppView {
        match (outcome, self.perms) {
            (ApplyOutcome::Applied(n), _) => self.flashed(
                "applied to "@ + decimal_text(n as nat) + " entries"@,
                now,
            ),
            (ApplyOutcome::Failed(why), _) => self.flashed("apply failed: "@ + why@, now),
            (ApplyOutcome::Missing, Some(p)) => self.flashed(
                "path no longer exists: "@ + p.path,
                now,
            ),
            (ApplyOutcome::Missing, None) => self,
        }
    }

    pub open spec fn editing_with(self, e: EditorView) -> AppView {
        AppView { editor: Some(e), ..self }
    }

    /// With the editor closed, and the cursor on a row that is there.
    pub open spec fn editor_closed(self) -> AppView {
        let a = AppView { editor: None, screen: Screen::Main, ..self };
        if a.rows_ready() {
            a.at_row(snapped(a.rows(), a.cursor))
        } else {
            a
        }
    }

    /// What the editor's answer to a key changes.
    pub open spec fn editor_answered(self, e: EditorView, action: EditorAction) -> (
        AppView,
        EffectView,
    ) {
        match action {
            EditorAction::Done(EditorOutcome::Continue) => (
                self.editing_with(e),
                EffectView::Nothing,
            ),
            EditorAction::Done(EditorOutcome::Close) => (
                self.editor_closed(),
                EffectView::Nothing,
            ),
            EditorAction::Save { close } => (
                self.editing_with(e),
                EffectView::SaveFile { close },
            ),
        }
    }

    /// What a key does while the editor is open.
    #[verifier::opaque]
    pub open spec fn editor_step(self, e: EditorView, key: KeyEvent, now: u64) -> (
        AppView,
        EffectView,
    ) {
        let (t, action) = EditorView { size: self.last_size, ..e }.key_step(key, now);
        self.editor_answered(t, action)
    }

    /// What saving the edited file changes.
    pub open spec fn file_kept(self, pid: u32, outcome: SaveOutcome, close: bool) -> AppView {
        match self.editor {
            None => self,
            Some(e) => if close && outcome is Saved {
                self.editor_closed()
            } else {
                self.editing_with(
                    (EditorView {
                        modified: e.modified && outcome !is Saved,
                        ..e
                    }).flashed(save_message(e.path, pid, outcome)),
                )
            },
        }
    }
}

impl App {
    fn put_picker(&mut self, s: SpotlightState)
        ensures
            final(self)@ == old(self)@.picking(s@),
    {
        self.spotlight = Some(s);
        assert(self@ =~= old(self)@.picking(s@));
    }

    /// Closes the picker.
    pub fn close_spotlight(&mut self)
        ensures
            final(self)@ == old(self)@.without_picker(),
    {
        self.spotlight = None;
        assert(self@ =~= old(self)@.without_picker());
    }

    /// Opens the picker.
    pub fn open_spotlight(&mut self, env: &Env) -> (r: Effect)
        ensures
            (final(self)@, r@) == old(self)@.picker_opened(env.now, env.home_text()),
            old(self)@.wf() ==> final(self)@.wf(),
    {
        let mut dir = self.root.path.clone();
        push_char(&mut dir, '/');
        let mut s = SpotlightState::new(merge_slashes(&dir), env.now);
        let req = s.refresh(true, env.now, env.home_str());
        self.put_picker(s);
        ask(req)
    }

    /// Lets the picker ask for a directory once typing has rested.
    pub fn tick(&mut self, env: &Env) -> (r: Effect)
        requires
            old(self)@.wf(),
        ensures
            (final(self)@, r@) == old(self)@.ticked(env.now, env.home_text()),
            final(self)@.wf(),
    {
        let ghost v = self@;
        match self.spotlight.take() {
            None => {
                assert(self@ =~= v);
                Effect::Nothing
            },
            Some(s) => {
                let mut s = s;
                let req = s.refresh(false, env.now, env.home_str());
                self.put_picker(s);
                assert(self@ =~= v.picking(s@));
                ask(req)
            },
        }
    }

    /// How long to wait for a key before drawing again, in milliseconds: the
    /// picker has to see that typing rests, and the end of a scan is to be seen
    /// soon.
    pub fn poll_millis(&self) -> (r: u64)
        ensures
            r == (if self@.spotlight is Some {
                30u64
            } else if self@.rescanning {
                80u64
            } else {
                200u64
            }),
    {
        if self.spotlight.is_some() {
            30
        } else if self.rescanning {
            80
        } else {
            200
        }
    }

    /// Takes the answer to a request of the picker.
    pub fn take_listing(&mut self, resp: SpotlightResp, env: &Env)
        requires
            old(self)@.wf(),
        ensures
            final(self)@ == old(self)@.listing_taken(resp, env.home_text()),
            final(self)@.wf(),
    {
        let ghost v = self@;
        match self.spotlight.take() {
            None => {
                assert(self@ =~= v);
            },
            Some(s) => {
                let mut s = s;
                s.answer(resp, env.home_str());
                self.put_picker(s);
                assert(self@ =~= v.picking(s@));
            },
        }
    }

    /// Handles a key while the picker is open.
    pub fn handle_spotlight_key(&mut self, key: KeyEvent, env: &Env) -> (r: Effect)
        requires
            old(self)@.wf(),
            old(self)@.spotlight is Some,
        ensures
            (final(self)@, r@) == old(self)@.picker_step(
                old(self)@.spotlight->0,
                key,
                env.now,
                env.home_text(),
            ),
            final(self)@.wf(),
    {
        let ghost v = self@;
        match self.spotlight.take() {
            None => Effect::Nothing,
            Some(s) => {
                let mut s = s;
                assert(self@ =~= v.without_picker());
                match key.code {
                    KeyCode::Esc => Effect::Nothing,
                    KeyCode::Enter => {
                        if s.selected < s.candidates.len() {
                            let path = s.candidates[s.selected].path.clone();
                            return self.drill_into(path);
                        }
                        let path = expand_tilde(&s.input, env.home_str());
                        self.put_picker(s);
                        assert(self@ =~= v);
                        Effect::GoToTyped { path }
                    },
                    _ => {
                        let req = s.handle_key(key, env.now, env.home_str());
                        self.put_picker(s);
                        assert(self@ =~= v.picking(s@));
                        ask(req)
                    },
                }
            },
        }
    }

    /// Goes to a typed path, if it is a directory.
    pub fn typed_path_checked(&mut self, path: String, is_dir: bool, now: u64) -> (r: Effect)
        ensures
            (final(self)@, r@) == old(self)@.typed_checked(path@, is_dir, now),
            old(self)@.wf() ==> final(self)@.wf(),
    {
        if is_dir {
            self.close_spotlight();
            return self.drill_into(path);
        }
        self.flash("spotlight: no valid path".to_owned(), now);
        Effect::Nothing
    }

    fn put_perms(&mut self, p: PermsState)
        ensures
            final(self)@ == old(self)@.with_perms(p@),
    {
        self.perms = Some(p);
        assert(self@ =~= old(self)@.with_perms(p@));
    }

    fn close_perms(&mut self)
        ensures
            final(self)@ == old(self)@.perms_closed(),
    {
        self.perms = None;
        self.screen = Screen::Main;
        assert(self@ =~= old(self)@.perms_closed());
    }

    /// Presses a button of the permissions.
    pub fn activate_perms_button(&mut self, env: &Env) -> (r: Effect)
        requires
            old(self)@.wf(),
            old(self)@.perms is Some,
        ensures
            (final(self)@, r@) == old(self)@.perms_button(
                old(self)@.perms->0,
                env.now,
                env.root,
            ),
            final(self)@.wf(),
    {
        let ghost v = self@;
        match self.perms.take() {
            None => Effect::Nothing,
            Some(p) => {
                let mut p = p;
                let cursor = p.cursor;
                let path = p.path.clone();
                let mode = p.mode;
                if cursor == 13 {
                    p.confirm_recursive = true;
                    p.confirm_cursor = 1;
                    assert(p@ =~= v.perms->0.asking());
                }
                self.put_perms(p);
                assert(cursor != 13 ==> self@ =~= v);
                assert(cursor == 13 ==> self@ =~= v.with_perms(p@));
                if cursor == 12 {
                    if !env.root {
                        self.flash("apply requires sudo/root".to_owned(), env.now);
                        return Effect::Nothing;
                    }
                    return Effect::ApplyPerms { path, mode };
                }
                if cursor == 14 {
                    self.close_perms();
                }
                Effect::Nothing
            },
        }
    }

    fn enter_perms_cell(&mut self, env: &Env) -> (r: Effect)
        requires
            old(self)@.wf(),
            old(self)@.perms is Some,
        ensures
            (final(self)@, r@) == old(self)@.perms_entered(
                old(self)@.perms->0,
                env.now,
                env.root,
            ),
            final(self)@.wf(),
    {
        let ghost v = self@;
        match self.perms.take() {
            None => Effect::Nothing,
            Some(p) => {
                let mut p = p;
                let on_button = p.cursor >= 12;
                p.toggle_cursor();
                self.put_perms(p);
                assert(self@ =~= v.with_perms(p@));
                if on_button {
                    assert(self@ =~= v);
                    return self.activate_perms_button(env);
                }
                Effect::Nothing
            },
        }
    }

    fn move_in_perms(&mut self, dx: i32, dy: i32)
        requires
            old(self)@.wf(),
            old(self)@.perms is Some,
            -1 <= dx <= 1,
            -1 <= dy <= 1,
        ensures
            final(self)@ == old(self)@.with_perms(
                old(self)@.perms->0.moved(dx as int, dy as int),
            ),
            final(self)@.wf(),
    {
        let ghost v = self@;
        match self.perms.take() {
            None => {},
            Some(p) => {
                let mut p = p;
                p.move_cursor(dx, dy);
                self.put_perms(p);
                assert(self@ =~= v.with_perms(p@));
            },
        }
    }

    fn confirm_perms(&mut self, key: KeyEvent, env: &Env) -> (r: Effect)
        requires
            old(self)@.wf(),
            old(self)@.perms is Some,
            old(self)@.perms->0.confirm_recursive,
        ensures
            (final(self)@, r@) == old(self)@.perms_step(
                old(self)@.perms->0,
                key,
                env.now,
                env.root,
            ),
            final(self)@.wf(),
    {
        let ghost v = self@;
        match self.perms.take() {
            None => Effect::Nothing,
            Some(p) => {
                let mut p = p;
                let path = p.path.clone();
                let mode = p.mode;
                let mut yes = false;
                match key.code {
                    KeyCode::Esc => {
                        p.confirm_recursive = false;
                    },
                    KeyCode::Left | KeyCode::Right | KeyCode::Tab => {
                        p.confirm_cursor = p.confirm_cursor ^ 1;
                    },
                    KeyCode::Enter => {
                        p.confirm_recursive = false;
                        yes = p.confirm_cursor == 0;
                    },
                    KeyCode::Char(c) => {
                        if c == ' ' {
                            p.confirm_recursive = false;
                            yes = p.confirm_cursor == 0;
                        }
                    },
                    _ => {},
                }
                assert(p@ =~= v.perms->0.confirming(key));
                self.put_perms(p);
                assert(self@ =~= v.with_perms(p@));
                if yes {
                    if !env.root {
                        self.flash("recursive apply requires sudo/root".to_owned(), env.now);
                        return Effect::Nothing;
                    }
                    return Effect::ApplyPermsRecursive { path, mode };
                }
                Effect::Nothing
            },
        }
    }

    /// Handles a key while the permissions are open.
    pub fn handle_perms_key(&mut self, key: KeyEvent, env: &Env) -> (r: Effect)
        requires
            old(self)@.wf(),
            old(self)@.perms is Some,
        ensures
            (final(self)@, r@) == old(self)@.perms_step(
                old(self)@.perms->0,
                key,
                env.now,
                env.root,
            ),
            final(self)@.wf(),
    {
        let confirming = match &self.perms {
            Some(p) => p.confirm_recursive,
            None => false,
        };
        if confirming {
            return self.confirm_perms(key, env);
        }
        match key.code {
            KeyCode::Esc => {
                self.close_perms();
            },
            KeyCode::Left => {
                self.move_in_perms(-1, 0);
            },
            KeyCode::Right => {
                self.move_in_perms(1, 0);
            },
            KeyCode::Up => {
                self.move_in_perms(0, -1);
            },
            KeyCode::Down => {
                self.move_in_perms(0, 1);
            },
            KeyCode::Enter => {
                return self.enter_perms_cell(env);
            },
            KeyCode::Char(c) => {
                if c == 'q' || c == 'i' {
                    self.close_perms();
                } else if c == ' ' {
                    return self.enter_perms_cell(env);
                }
            },
            _ => {},
        }
        Effect::Nothing
    }

    /// The permissions were applied, or were not.
    pub fn perms_applied(&mut self, outcome: Result<(), String>, now: u64)
        ensures
            final(self)@ == old(self)@.perms_written(failure(outcome), now),
    {
        match outcome {
            Ok(()) => {
                self.flash("permissions applied".to_owned(), now);
            },
            Err(e) => {
                self.flash(concat("apply failed: ", &e), now);
            },
        }
    }

    /// The permissions were applied to everything below, or were not.
    pub fn perms_applied_below(&mut self, outcome: ApplyOutcome, now: u64)
        ensures
            final(self)@ == old(self)@.perms_written_below(outcome, now),
    {
        match outcome {
            ApplyOutcome::Applied(n) => {
                let count = decimal(n as u64);
                self.flash(concat3("applied to ", &count, " entries"), now);
            },
            ApplyOutcome::Failed(e) => {
                self.flash(concat("apply failed: ", &e), now);
            },
            ApplyOutcome::Missing => {
                let why: Option<String> = match &self.perms {
                    Some(p) => match p.clone_apply_target(false) {
                        Ok(()) => None,
                        Err(e) => Some(e),
                    },
                    None => None,
                };
                if let Some(e) = why {
                    self.flash(e, now);
                }
            },
        }
    }

    fn put_editor(&mut self, e: Editor)
        ensures
            final(self)@ == old(self)@.editing_with(e@),
    {
        self.editor = Some(e);
        assert(self@ =~= old(self)@.editing_with(e@));
    }

    /// Closes the editor.
    fn close_editor(&mut self)
        ensures
            final(self)@ == old(self)@.editor_closed(),
    {
        self.editor = None;
        self.screen = Screen::Main;
        let ghost a = AppView { editor: None, screen: Screen::Main, ..old(self)@ };
        assert(self@ =~= a);
        if self.can_build_rows() {
            let rows = self.build_rows();
            self.cursor = snap_cursor_to_selectable(&rows, self.cursor);
            assert(self@ =~= a.at_row(snapped(a.rows(), a.cursor)));
        }
    }

    fn answer_editor(&mut self, e: Editor, action: EditorAction) -> (r: Effect)
        ensures
            (final(self)@, r@) == old(self)@.editor_answered(e@, action),
    {
        match action {
            EditorAction::Done(EditorOutcome::Continue) => {
                self.put_editor(e);
                Effect::Nothing
            },
            EditorAction::Done(EditorOutcome::Close) => {
                self.close_editor();
                Effect::Nothing
            },
            EditorAction::Save { close } => {
                self.put_editor(e);
                Effect::SaveFile { close }
            },
        }
    }

    /// Handles a key while the editor is open.
    pub fn handle_editor_key(&mut self, key: KeyEvent, now: u64) -> (r: Effect)
        requires
            old(self)@.wf(),
            old(self)@.editor is Some,
            old(self)@.editor->0.edits_at_cursor(key) ==> old(self)@.editor->0.between_chars(),
        ensures
            (final(self)@, r@) == old(self)@.editor_step(old(self)@.editor->0, key, now),
            final(self)@.wf(),
    {
        let ghost v = self@;
        match self.editor.take() {
            None => Effect::Nothing,
            Some(e) => {
                let mut e = e;
                e.report_size(self.last_size.0, self.last_size.1);
                let action = e.handle_key(key, now);
                proof {
                    reveal(AppView::editor_step);
                    lemma_editor_taken(v, self@, e@, action);
                }
                self.answer_editor(e, action)
            },
        }
    }

    /// The edited file was saved, or was not.
    pub fn file_saved(&mut self, pid: u32, outcome: SaveOutcome, close: bool)
        requires
            old(self)@.wf(),
        ensures
            final(self)@ == old(self)@.file_kept(pid, outcome, close),
            final(self)@.wf(),
    {
        let ghost v = self@;
        match self.editor.take() {
            None => {
                assert(self@ =~= v);
            },
            Some(e) => {
                let mut e = e;
                let after = e.save_done(pid, outcome, close);
                self.put_editor(e);
                assert(self@ =~= v.editing_with(e@));
                match after {
                    EditorOutcome::Continue => {},
                    EditorOutcome::Close => {
                        self.close_editor();
                        assert(v.editing_with(e@).editor_closed() =~= v.editor_closed());
                    },
                }
            },
        }
    }
}

proof fn lemma_editor_taken(a: AppView, b: AppView, e: EditorView, action: EditorAction)
    requires
        b == (AppView { editor: None, ..a }),
    ensures
        b.editor_answered(e, action) == a.editor_answered(e, action),
{
    assert(b.editing_with(e) =~= a.editing_with(e));
    assert((AppView { editor: None, screen: Screen::Main, ..b }) =~= (AppView {
        editor: None,
        screen: Screen::Main,
        ..a
    }));
}

/// Permissions are not changed without root, whatever is pressed.
pub proof fn only_root_changes_permissions(a: AppView, p: PermsView, key: KeyEvent, now: u64)
    ensures
        a.perms_step(p, key, now, false).1 == EffectView::Nothing,
{
}

/// Permissions of everything below are not changed unless that was confirmed.
pub proof fn recursion_is_confirmed(
    a: AppView,
    p: PermsView,
    key: KeyEvent,
    now: u64,
    root: bool,
)
    requires
        a.perms_step(p, key, now, root).1 is ApplyPermsRecursive,
    ensures
        root,
        p.confirm_recursive,
        p.confirm_cursor == 0,
{
}

} // verus!
