//! Going from directory to directory, and doing things with the selected entry.

use vstd::prelude::*;

use crate::cli::{SortBy, SortOrder};
use crate::config::{ConfigView, Theme};
use crate::editor::file::{open_error, opened, FileRead};
use crate::editor::Editor;
use crate::paths::{file_name, file_name_of, parent, parent_of};
use crate::text::{holds_text, starts_with, texts};
use crate::tui::perms::{inspected, PermsStat, PermsState};
use crate::tui::scans::{is_same_place, same_place};
use crate::tui::spotlight::opt_text;
use crate::tui::{App, AppView, Effect, EffectView, Screen};
use crate::walker::{excluded, pattern_excludes, patterns_match_themselves};

verus! {

/// What came of opening a file in the editor.
pub enum EditorLoad {
    IsDir,
    File(FileRead),
}

/// The theme that follows another.
pub open spec fn next_theme(t: Theme) -> Theme {
    match t {
        Theme::Default => Theme::HighContrast,
        Theme::HighContrast => Theme::Monochrome,
        Theme::Monochrome => Theme::Default,
    }
}

/// The order that follows another: size down, size up, name up, name down.
pub open spec fn next_sort(by: SortBy, order: SortOrder) -> (SortBy, SortOrder) {
    match (by, order) {
        (SortBy::Size, SortOrder::Desc) => (SortBy::Size, SortOrder::Asc),
        (SortBy::Size, SortOrder::Asc) => (SortBy::Name, SortOrder::Asc),
        (SortBy::Name, SortOrder::Asc) => (SortBy::Name, SortOrder::Desc),
        (SortBy::Name, SortOrder::Desc) => (SortBy::Size, SortOrder::Desc),
    }
}

/// The name of an order.
pub open spec fn sort_text(by: SortBy, order: SortOrder) -> Seq<char> {
    (match by {
        SortBy::Size => "size"@,
        SortBy::Name => "name"@,
    }) + " "@ + order.arrow_text()
}

/// The view of a result that says nothing but why it failed.
pub open spec fn failure(r: Result<(), String>) -> Option<Seq<char>> {
    match r {
        Ok(_) => None,
        Err(e) => Some(e@),
    }
}

impl ConfigView {
    pub open spec fn theme_cycled(self) -> ConfigView {
        ConfigView { theme: next_theme(self.theme), ..self }
    }

    pub open spec fn sort_cycled(self) -> ConfigView {
        let n = next_sort(self.sort, self.sort_order);
        ConfigView { sort: n.0, sort_order: n.1, ..self }
    }
}

/// After three changes the theme is the first again, after four the order is.
pub proof fn cycles_come_round(c: ConfigView)
    ensures
        c.theme_cycled().theme_cycled().theme_cycled() == c,
        c.sort_cycled().sort_cycled().sort_cycled().sort_cycled() == c,
        c.theme_cycled() != c,
        c.sort_cycled() != c,
{
}

impl AppView {
    /// Into a directory; the way back is kept.
    pub open spec fn drilled(self, path: Seq<char>) -> (AppView, EffectView) {
        (
            AppView { nav_stack: self.nav_stack.push(self.root.path@), ..self },
            EffectView::Rescan { path },
        )
    }

    /// Whether the last step of the way was taken from a place.
    pub open spec fn came_from(self, path: Seq<char>) -> bool {
        self.nav_stack.len() > 0 && same_place(self.nav_stack.last(), path)
    }

    /// To the parent directory; a step that was taken from there is undone.
    pub open spec fn went_up(self, now: u64) -> (AppView, EffectView) {
        match parent_of(self.root.path@) {
            Some(p) => (self, EffectView::GoUp { target: p, pop: self.came_from(p) }),
            None => (self.flashed("already at filesystem root"@, now), EffectView::Nothing),
        }
    }

    /// Without the last step of the way, if `pop` is set.
    pub open spec fn popped(self, pop: bool) -> AppView {
        if pop && self.nav_stack.len() > 0 {
            AppView { nav_stack: self.nav_stack.drop_last(), ..self }
        } else {
            self
        }
    }

    /// Up, once it is known whether the target can be entered. A step that
    /// cannot be taken is forgotten all the same.
    pub open spec fn went_up_checked(
        self,
        target: Seq<char>,
        pop: bool,
        is_dir: bool,
        now: u64,
    ) -> (AppView, EffectView) {
        if is_dir {
            (self.popped(pop), EffectView::Rescan { path: target })
        } else {
            (
                self.popped(pop).flashed(
                    "cannot go up: "@ + target + " is not accessible"@,
                    now,
                ),
                EffectView::Nothing,
            )
        }
    }

    /// To the home directory, where there is one.
    pub open spec fn went_home(self, home: Option<Seq<char>>) -> (AppView, EffectView) {
        match home {
            Some(h) => self.drilled(h),
            None => (self, EffectView::Nothing),
        }
    }

    /// With one more pattern excluded for the session.
    pub open spec fn excluding(self, name: Seq<char>) -> AppView {
        if self.session_excludes.contains(name) {
            self
        } else {
            AppView { session_excludes: self.session_excludes.push(name), ..self }
        }
    }

    /// The message that nothing is selected.
    pub open spec fn nothing_selected(self, now: u64) -> (AppView, EffectView) {
        (self.flashed("nothing selected"@, now), EffectView::Nothing)
    }

    /// With the selected entry excluded.
    pub open spec fn excluded_selected(self, now: u64) -> (AppView, EffectView) {
        match self.selected_path() {
            None => self.nothing_selected(now),
            Some(p) => match file_name_of(p) {
                None => (self, EffectView::Nothing),
                Some(name) => (
                    self.excluding(name).flashed(
                        "excluded \""@ + name + "\" (session)"@,
                        now,
                    ),
                    EffectView::Rescan { path: self.root.path@ },
                ),
            },
        }
    }

    pub open spec fn yanking(self, now: u64) -> (AppView, EffectView) {
        match self.selected_path() {
            None => self.nothing_selected(now),
            Some(p) => (self, EffectView::Yank { text: p }),
        }
    }

    pub open spec fn opening(self, now: u64) -> (AppView, EffectView) {
        match self.selected_path() {
            None => self.nothing_selected(now),
            Some(p) => (self, EffectView::OpenExternal { path: p }),
        }
    }

    pub open spec fn inspecting(self, now: u64) -> (AppView, EffectView) {
        match self.selected_path() {
            None => self.nothing_selected(now),
            Some(p) => (self, EffectView::OpenPerms { path: p }),
        }
    }

    pub open spec fn editing(self, now: u64) -> (AppView, EffectView) {
        match self.selected_path() {
            None => self.nothing_selected(now),
            Some(p) => (self, EffectView::OpenEditor { path: p }),
        }
    }

    /// What a copy to the clipboard changes.
    pub open spec fn yanked(self, failed: Option<Seq<char>>, now: u64) -> AppView {
        match failed {
            None => self.flashed("yanked path to clipboard"@, now),
            Some(why) => self.flashed("clipboard error: "@ + why, now),
        }
    }

    /// What saving the settings changes.
    pub open spec fn settings_kept(self, failed: Option<Seq<char>>, now: u64) -> AppView {
        match failed {
            None => self.flashed("Settings saved to ~/.config/diskvis/config.toml"@, now),
            Some(why) => self.flashed("Failed to save settings: "@ + why, now),
        }
    }

    /// What the permissions of an entry change, once they are known.
    pub open spec fn perms_shown(
        self,
        path: Seq<char>,
        stat: Result<PermsStat, String>,
        now: u64,
    ) -> AppView {
        match stat {
            Ok(st) => AppView {
                perms: Some(inspected(path, st)),
                screen: Screen::Permissions,
                ..self
            },
            Err(why) => self.flashed("perms: stat "@ + path + ": "@ + why@, now),
        }
    }

    /// What a file changes, once it was read for the editor.
    pub open spec fn file_shown(self, path: Seq<char>, load: EditorLoad, now: u64) -> AppView {
        match load {
            EditorLoad::IsDir => self.flashed("editor: cannot open a directory"@, now),
            EditorLoad::File(read) => match read {
                FileRead::NoStat(why) => self.flashed(
                    "editor: "@ + open_error(path, "stat"@, why@),
                    now,
                ),
                FileRead::NoRead(why) => self.flashed(
                    "editor: "@ + open_error(path, "read"@, why@),
                    now,
                ),
                FileRead::Read { size, bytes } => AppView {
                    editor: Some(opened(path, size, bytes@)),
                    screen: Screen::Editor,
                    ..self
                },
            },
        }
    }
}

/// Two texts, put together.
pub(crate) fn concat(a: &str, b: &str) -> (r: String)
    ensures
        r@ == a@ + b@,
{
    let mut s = a.to_owned();
    s.append(b);
    s
}

pub(crate) fn concat3(a: &str, b: &str, c: &str) -> (r: String)
    ensures
        r@ == a@ + b@ + c@,
{
    let mut s = concat(a, b);
    s.append(c);
    s
}

pub(crate) fn push_text(v: &mut Vec<String>, s: String)
    ensures
        texts(final(v)@) == texts(old(v)@).push(s@),
{
    v.push(s);
    assert(texts(v@) =~= texts(old(v)@).push(s@));
}

impl App {
    /// The next theme.
    pub fn cycle_theme(&mut self)
        ensures
            final(self)@ == old(self)@.with_config(old(self)@.config.theme_cycled()),
    {
        self.config.theme = match self.config.theme {
            Theme::Default => Theme::HighContrast,
            Theme::HighContrast => Theme::Monochrome,
            Theme::Monochrome => Theme::Default,
        };
        assert(self@ =~= old(self)@.with_config(old(self)@.config.theme_cycled()));
    }

    /// The next order.
    pub fn cycle_sort(&mut self)
        ensures
            final(self)@ == old(self)@.with_config(old(self)@.config.sort_cycled()),
    {
        let next = match (self.config.sort, self.config.sort_order) {
            (SortBy::Size, SortOrder::Desc) => (SortBy::Size, SortOrder::Asc),
            (SortBy::Size, SortOrder::Asc) => (SortBy::Name, SortOrder::Asc),
            (SortBy::Name, SortOrder::Asc) => (SortBy::Name, SortOrder::Desc),
            (SortBy::Name, SortOrder::Desc) => (SortBy::Size, SortOrder::Desc),
        };
        self.config.sort = next.0;
        self.config.sort_order = next.1;
        assert(self@ =~= old(self)@.with_config(old(self)@.config.sort_cycled()));
    }

    /// The name of the order.
    pub fn sort_label(&self) -> (r: String)
        ensures
            r@ == sort_text(self@.config.sort, self@.config.sort_order),
    {
        let by: &str = match self.config.sort {
            SortBy::Size => "size",
            SortBy::Name => "name",
        };
        concat3(by, " ", self.config.sort_order.arrow())
    }

    /// Goes into a directory.
    pub fn drill_into(&mut self, path: String) -> (r: Effect)
        ensures
            (final(self)@, r@) == old(self)@.drilled(path@),
    {
        let from = self.root.path.clone();
        push_text(&mut self.nav_stack, from);
        assert(self@ =~= old(self)@.drilled(path@).0);
        Effect::Rescan { path }
    }

    fn is_last_step(&self, path: &str) -> (r: bool)
        ensures
            r == self@.came_from(path@),
    {
        let n = self.nav_stack.len();
        assert(self@.nav_stack.len() == n);
        if n == 0 {
            return false;
        }
        assert(self@.nav_stack.last() == self.nav_stack@[n - 1]@);
        is_same_place(&self.nav_stack[n - 1], path)
    }

    /// Goes up.
    pub fn go_up(&mut self, now: u64) -> (r: Effect)
        ensures
            (final(self)@, r@) == old(self)@.went_up(now),
    {
        match parent(&self.root.path) {
            Some(p) => {
                let pop = self.is_last_step(&p);
                Effect::GoUp { target: p, pop }
            },
            None => {
                self.flash("already at filesystem root".to_owned(), now);
                Effect::Nothing
            },
        }
    }

    fn pop_nav(&mut self, pop: bool)
        ensures
            final(self)@ == old(self)@.popped(pop),
    {
        let ghost v = self@;
        assert(self.nav_stack@.len() == v.nav_stack.len());
        if pop && self.nav_stack.len() > 0 {
            let _ = self.nav_stack.pop();
            assert(texts(self.nav_stack@) =~= v.nav_stack.drop_last());
        }
        assert(self@ =~= v.popped(pop));
    }

    /// Goes up, once it is known whether the target can be entered.
    pub fn go_up_checked(&mut self, target: String, pop: bool, is_dir: bool, now: u64) -> (r:
        Effect)
        ensures
            (final(self)@, r@) == old(self)@.went_up_checked(target@, pop, is_dir, now),
    {
        self.pop_nav(pop);
        if !is_dir {
            self.flash(concat3("cannot go up: ", &target, " is not accessible"), now);
            return Effect::Nothing;
        }
        Effect::Rescan { path: target }
    }

    /// Goes to the home directory.
    pub fn jump_home(&mut self, home: Option<&str>) -> (r: Effect)
        ensures
            (final(self)@, r@) == old(self)@.went_home(opt_text(home)),
    {
        match home {
            Some(h) => self.drill_into(h.to_owned()),
            None => Effect::Nothing,
        }
    }

    fn say_nothing_selected(&mut self, now: u64) -> (r: Effect)
        ensures
            (final(self)@, r@) == old(self)@.nothing_selected(now),
    {
        self.flash("nothing selected".to_owned(), now);
        Effect::Nothing
    }

    /// Excludes the selected entry for the session.
    pub fn exclude_selected(&mut self, now: u64) -> (r: Effect)
        requires
            old(self)@.rows_ready(),
        ensures
            (final(self)@, r@) == old(self)@.excluded_selected(now),
    {
        let ghost v = self@;
        match self.selected_row_path() {
            None => self.say_nothing_selected(now),
            Some(p) => match file_name(&p) {
                None => Effect::Nothing,
                Some(name) => {
                    if !holds_text(&self.session_excludes, &name) {
                        let pat = name.clone();
                        push_text(&mut self.session_excludes, pat);
                    }
                    assert(self@ =~= v.excluding(name@));
                    self.flash(concat3("excluded \"", &name, "\" (session)"), now);
                    Effect::Rescan { path: self.root.path.clone() }
                },
            },
        }
    }

    /// Copies the path of the selected entry.
    pub fn yank_selected(&mut self, now: u64) -> (r: Effect)
        requires
            old(self)@.rows_ready(),
        ensures
            (final(self)@, r@) == old(self)@.yanking(now),
    {
        match self.selected_row_path() {
            None => self.say_nothing_selected(now),
            Some(p) => Effect::Yank { text: p },
        }
    }

    /// The path was copied, or was not.
    pub fn yank_done(&mut self, outcome: Result<(), String>, now: u64)
        ensures
            final(self)@ == old(self)@.yanked(failure(outcome), now),
    {
        match outcome {
            Ok(()) => {
                self.flash("yanked path to clipboard".to_owned(), now);
            },
            Err(e) => {
                self.flash(concat("clipboard error: ", &e), now);
            },
        }
    }

    /// Opens the selected entry with another program.
    pub fn open_selected(&mut self, now: u64) -> (r: Effect)
        requires
            old(self)@.rows_ready(),
        ensures
            (final(self)@, r@) == old(self)@.opening(now),
    {
        match self.selected_row_path() {
            None => self.say_nothing_selected(now),
            Some(p) => Effect::OpenExternal { path: p },
        }
    }

    /// The other program was started, or was not.
    pub fn open_done(&mut self, opener: &str, launched: bool, now: u64)
        ensures
            final(self)@ == old(self)@.flashed(
                if launched {
                    "opened with "@ + opener@
                } else {
                    "failed to launch "@ + opener@
                },
                now,
            ),
    {
        if launched {
            self.flash(concat("opened with ", opener), now);
        } else {
            self.flash(concat("failed to launch ", opener), now);
        }
    }

    /// Looks at the permissions of the selected entry.
    pub fn open_perms_inspector(&mut self, now: u64) -> (r: Effect)
        requires
            old(self)@.rows_ready(),
        ensures
            (final(self)@, r@) == old(self)@.inspecting(now),
    {
        match self.selected_row_path() {
            None => self.say_nothing_selected(now),
            Some(p) => Effect::OpenPerms { path: p },
        }
    }

    /// The permissions are known, or are not.
    pub fn perms_loaded(&mut self, path: String, stat: Result<PermsStat, String>, now: u64)
        ensures
            final(self)@ == old(self)@.perms_shown(path@, stat, now),
            old(self)@.wf() ==> final(self)@.wf(),
    {
        let ghost v = self@;
        match PermsState::from_path(path, stat) {
            Ok(p) => {
                self.perms = Some(p);
                self.screen = Screen::Permissions;
                assert(self@ =~= v.perms_shown(path@, stat, now));
            },
            Err(e) => {
                let text = concat("perms: ", &e);
                proof {
                    reveal_strlit("perms: ");
                    reveal_strlit("stat ");
                    reveal_strlit("perms: stat ");
                    assert("perms: "@ + "stat "@ =~= "perms: stat "@);
                    assert(text@ =~= "perms: stat "@ + path@ + ": "@ + stat->Err_0@);
                }
                self.flash(text, now);
            },
        }
    }

    /// Opens the selected entry in the editor.
    pub fn open_editor_for_selected(&mut self, now: u64) -> (r: Effect)
        requires
            old(self)@.rows_ready(),
        ensures
            (final(self)@, r@) == old(self)@.editing(now),
    {
        match self.selected_row_path() {
            None => self.say_nothing_selected(now),
            Some(p) => Effect::OpenEditor { path: p },
        }
    }

    /// The file was read for the editor, or was not.
    pub fn editor_loaded(&mut self, path: String, load: EditorLoad, now: u64)
        ensures
            final(self)@ == old(self)@.file_shown(path@, load, now),
            old(self)@.wf() ==> final(self)@.wf(),
    {
        let ghost v = self@;
        match load {
            EditorLoad::IsDir => {
                self.flash("editor: cannot open a directory".to_owned(), now);
            },
            EditorLoad::File(read) => match Editor::open(path, read) {
                Ok(ed) => {
                    self.editor = Some(ed);
                    self.screen = Screen::Editor;
                    assert(self@ =~= v.file_shown(path@, load, now));
                },
                Err(e) => {
                    self.flash(concat("editor: ", &e), now);
                },
            },
        }
    }

    /// The settings were saved, or were not.
    pub fn settings_saved(&mut self, outcome: Result<(), String>, now: u64)
        ensures
            final(self)@ == old(self)@.settings_kept(failure(outcome), now),
    {
        match outcome {
            Ok(()) => {
                self.flash("Settings saved to ~/.config/diskvis/config.toml".to_owned(), now);
            },
            Err(e) => {
                self.flash(concat("Failed to save settings: ", &e), now);
            },
        }
    }
}

/// Up leads to the parent directory, wherever one came from, unless there is
/// none.
pub proof fn up_leads_to_the_parent(a: AppView, now: u64)
    ensures
        match parent_of(a.root.path@) {
            Some(p) => a.went_up(now).0 == a && a.went_up(now).1 is GoUp
                && a.went_up(now).1->target == p,
            None => a.went_up(now).1 is Nothing,
        },
{
}

/// Up from a directory that was entered from its parent undoes that step.
pub proof fn up_undoes_going_in(a: AppView, b: AppView, now: u64)
    requires
        parent_of(b.root.path@) == Some(a.root.path@),
        b.nav_stack == a.drilled(b.root.path@).0.nav_stack,
    ensures
        b.went_up(now).1 == (EffectView::GoUp { target: a.root.path@, pop: true }),
        b.went_up_checked(a.root.path@, true, true, now) == (
            AppView { nav_stack: a.nav_stack, ..b },
            EffectView::Rescan { path: a.root.path@ },
        ),
{
    assert(a.nav_stack.push(a.root.path@).drop_last() =~= a.nav_stack);
}

/// An entry that was excluded for the session is left out of every later scan,
/// wherever it is.
pub proof fn excluded_entries_stay_out(a: AppView, name: Seq<char>, path: Seq<char>)
    requires
        !starts_with(name, '/'),
    ensures
        excluded(name, path, a.config.active() + a.excluding(name).session_excludes),
{
    let on = a.config.active();
    let all = on + a.excluding(name).session_excludes;
    patterns_match_themselves(name);
    let k = if a.session_excludes.contains(name) {
        choose|k: int|
            0 <= k < a.session_excludes.len() && #[trigger] a.session_excludes[k] == name
    } else {
        a.session_excludes.len() as int
    };
    assert(all[on.len() + k] == name);
    assert(pattern_excludes(all[on.len() + k], name, path));
}

} // verus!
