//! Where keys go, and what they do to the rows.

use vstd::prelude::*;

use crate::cli::Mode;
use crate::config::ConfigView;
use crate::display::row_views;
use crate::editor::EditorView;
use crate::keys::{KeyCode, KeyEvent};
use crate::paths::{same_components, same_path};
use crate::text::{clone_opt, drop_last_char, push_char};
use crate::tui::navigate::concat;
use crate::tui::rows::{
    last_selectable, last_selectable_idx, snap_cursor_to_selectable, snapped, step_backward,
    step_forward, stepped_down, stepped_up,
};
use crate::tui::settings::{
    advance, advanced, onoff, onoff_text, recede, receded, theme_name, theme_text,
};
use crate::tui::{App, AppView, Effect, EffectView, Env, FilterView, Screen};

verus! {

/// A state in which nothing has to be done.
pub open spec fn still(a: AppView) -> (AppView, EffectView) {
    (a, EffectView::Nothing)
}

/// Whether a key leads elsewhere.
#[verifier::allow_in_spec]
pub fn travels(c: char, ctrl: bool) -> bool
    returns
        c == '~' || c == 'r' || c == 'u' || c == ' ' || (ctrl && c == 'p'),
{
    c == '~' || c == 'r' || c == 'u' || c == ' ' || (ctrl && c == 'p')
}

/// Whether a key does something with the selected entry.
#[verifier::allow_in_spec]
pub fn takes_entry(c: char) -> bool
    returns
        c == 'e' || c == 'i' || c == 'x' || c == 'o' || c == 'y',
{
    c == 'e' || c == 'i' || c == 'x' || c == 'o' || c == 'y'
}

/// Whether a key moves the cursor.
#[verifier::allow_in_spec]
pub fn moves_cursor(c: char) -> bool
    returns
        c == 'g' || c == 'G' || c == 'j' || c == 'k',
{
    c == 'g' || c == 'G' || c == 'j' || c == 'k'
}

/// Whether a key brings something in front.
#[verifier::allow_in_spec]
pub fn brings_in_front(c: char) -> bool
    returns
        c == '?' || c == 'w' || c == 'S' || c == '/',
{
    c == '?' || c == 'w' || c == 'S' || c == '/'
}

/// Whether a key starts a file or a directory.
#[verifier::allow_in_spec]
pub fn makes_item(c: char) -> bool
    returns
        c == 'n' || c == 'N',
{
    c == 'n' || c == 'N'
}

/// Whether a key switches a part of the rows over.
#[verifier::allow_in_spec]
pub fn changes_view(c: char) -> bool
    returns
        c == '.' || c == 'h' || c == 'd' || c == 'p' || c == 'm',
{
    c == '.' || c == 'h' || c == 'd' || c == 'p' || c == 'm'
}

/// Whether a key of the main screen looks at the rows.
pub open spec fn looks_at_rows(key: KeyEvent) -> bool {
    match key.code {
        KeyCode::Char(c) => c == 'e' || c == 'i' || c == 'g' || c == 'G' || c == 'x' || c == 'o'
            || c == 'y' || c == 'j' || c == 'k',
        KeyCode::Down | KeyCode::Up | KeyCode::Home | KeyCode::End | KeyCode::PageDown
        | KeyCode::PageUp | KeyCode::Enter => true,
        _ => false,
    }
}

/// Whether a key of the main screen goes up in the rows.
pub open spec fn goes_up_rows(key: KeyEvent) -> bool {
    key.code == KeyCode::Up || key.code == KeyCode::PageUp || key.code == KeyCode::Char('k')
}

impl ConfigView {
    /// One level deeper, as far as depths can be counted.
    pub open spec fn deepened(self) -> ConfigView {
        ConfigView {
            depth: if self.depth == usize::MAX {
                self.depth
            } else {
                (self.depth + 1) as usize
            },
            ..self
        }
    }

    /// One level less deep, down to none.
    pub open spec fn flattened(self) -> ConfigView {
        ConfigView {
            depth: if self.depth == 0 {
                0
            } else {
                (self.depth - 1) as usize
            },
            ..self
        }
    }
}

/// One level deeper and one less is as deep as before.
pub proof fn depth_changes_revert(c: ConfigView)
    ensures
        c.depth < usize::MAX ==> c.deepened().flattened() == c,
        c.depth > 0 ==> c.flattened().deepened() == c,
{
}

impl AppView {
    pub open spec fn filtered(self, filter: FilterView) -> AppView {
        AppView { filter, ..self }
    }

    /// What a key does while the filter is typed.
    pub open spec fn filter_step(self, key: KeyEvent) -> AppView {
        let f = self.filter;
        match key.code {
            KeyCode::Esc => self.unfiltered(),
            KeyCode::Enter => self.filtered(
                FilterView { editing: false, active: f.active && f.query.len() > 0, ..f },
            ),
            KeyCode::Backspace => self.filtered(
                FilterView {
                    query: if f.query.len() == 0 {
                        f.query
                    } else {
                        f.query.drop_last()
                    },
                    ..f
                },
            ),
            KeyCode::Char(c) => self.filtered(FilterView { query: f.query.push(c), ..f }),
            _ => self,
        }
    }

    pub open spec fn at_warning(self, i: nat) -> AppView {
        AppView { warnings_scroll: i, ..self }
    }

    /// With the list of warnings one further, where it goes on.
    pub open spec fn warning_below(self) -> AppView {
        if self.warnings_scroll + 1 < self.warnings.len() {
            self.at_warning(self.warnings_scroll + 1)
        } else {
            self
        }
    }

    /// What a key does in the list of warnings.
    pub open spec fn warnings_step(self, key: KeyEvent) -> AppView {
        match key.code {
            KeyCode::Esc => self.on_screen(Screen::Main),
            KeyCode::Down => self.warning_below(),
            KeyCode::Up => self.at_warning(receded(self.warnings_scroll, 1)),
            KeyCode::PageDown => self.at_warning(
                advanced(self.warnings_scroll, 10, self.warnings.len()),
            ),
            KeyCode::PageUp => self.at_warning(receded(self.warnings_scroll, 10)),
            KeyCode::Char(c) => if c == 'q' || c == 'w' {
                self.on_screen(Screen::Main)
            } else if c == 'j' {
                self.warning_below()
            } else if c == 'k' {
                self.at_warning(receded(self.warnings_scroll, 1))
            } else {
                self
            },
            _ => self,
        }
    }

    pub open spec fn warnings_opened(self) -> AppView {
        self.at_warning(0).on_screen(Screen::Warnings)
    }

    pub open spec fn settings_opened(self) -> AppView {
        AppView { settings_cursor: 0, settings_scroll: 0, screen: Screen::Settings, ..self }
    }

    pub open spec fn in_mode(self, mode: Mode) -> AppView {
        self.with_config(ConfigView { mode, ..self.config })
    }

    /// With the cursor so many rows down.
    pub open spec fn row_down(self, steps: nat) -> AppView {
        self.at_row(stepped_down(self.rows(), self.cursor, steps))
    }

    /// With the cursor so many rows up.
    pub open spec fn row_up(self, steps: nat) -> AppView {
        self.at_row(stepped_up(self.rows(), self.cursor, steps))
    }

    /// With the cursor on the first row.
    pub open spec fn row_first(self) -> AppView {
        self.at_row(snapped(self.rows(), 0))
    }

    /// With the cursor on the last row.
    pub open spec fn row_last(self) -> AppView {
        self.at_row(last_selectable(self.rows()))
    }

    /// Half of the rows that are on the screen.
    pub open spec fn half_page(self) -> nat {
        if self.body_visible_rows / 2 < 1 {
            1
        } else {
            self.body_visible_rows / 2
        }
    }

    /// The directory of row `i`, where it is not the one that is shown.
    pub open spec fn row_target(self, i: nat) -> Option<Seq<char>> {
        if i < self.rows().len() && self.rows()[i as int].is_dir {
            match self.rows()[i as int].path {
                Some(p) => if same_components(p, self.root.path@) {
                    None
                } else {
                    Some(p)
                },
                None => None,
            }
        } else {
            None
        }
    }

    /// Into the directory of row `i`.
    pub open spec fn row_drilled(self, i: nat) -> (AppView, EffectView) {
        match self.row_target(i) {
            Some(p) => self.drilled(p),
            None => still(self),
        }
    }

    /// What the keys do that switch a part of the rows over.
    #[verifier::opaque]
    pub open spec fn view_step(self, c: char, now: u64) -> AppView {
        let f = self.config;
        if c == '.' || c == 'h' {
            self.with_config(f.hidden_toggled()).flashed(
                "hidden files: "@ + onoff_text(!f.view.show_hidden),
                now,
            )
        } else if c == 'd' {
            self.with_config(f.empty_toggled()).flashed(
                "empty dirs: "@ + onoff_text(!f.view.show_empty),
                now,
            )
        } else if c == 'p' {
            self.with_config(f.percent_toggled()).flashed(
                "percent column: "@ + onoff_text(!f.view.show_percent),
                now,
            )
        } else if c == 'm' {
            self.with_config(f.modified_toggled()).flashed(
                "modified column: "@ + onoff_text(!f.view.show_modified),
                now,
            )
        } else {
            self
        }
    }

    /// What the keys do that change how the tree is shown.
    #[verifier::opaque]
    pub open spec fn look_step(self, c: char, now: u64) -> AppView {
        let f = self.config;
        if c == 'f' {
            self.with_config(f.files_toggled())
        } else if c == 's' {
            self.with_config(f.sort_cycled())
        } else if c == 'c' {
            self.with_config(f.theme_cycled()).flashed(
                "theme: "@ + theme_text(f.theme_cycled().theme),
                now,
            )
        } else if c == '1' {
            self.in_mode(Mode::Tree)
        } else if c == '2' {
            self.in_mode(Mode::Bars)
        } else if c == '3' {
            self.in_mode(Mode::Treemap)
        } else if c == '4' {
            self.in_mode(Mode::Flat)
        } else if c == '+' {
            self.with_config(f.deepened())
        } else if c == '-' {
            self.with_config(f.flattened())
        } else {
            self
        }
    }

    /// What the keys do that bring something in front.
    #[verifier::opaque]
    pub open spec fn front_step(self, c: char) -> AppView {
        if c == '?' {
            self.on_screen(Screen::Help)
        } else if c == 'w' {
            self.warnings_opened()
        } else if c == 'S' {
            self.settings_opened()
        } else if c == '/' {
            self.filtered(FilterView { editing: true, active: true, ..self.filter })
        } else {
            self
        }
    }

    /// What the keys do that move the cursor.
    #[verifier::opaque]
    pub open spec fn move_step(self, c: char) -> AppView {
        if c == 'g' {
            self.row_first()
        } else if c == 'G' {
            self.row_last()
        } else if c == 'j' {
            self.row_down(1)
        } else if c == 'k' {
            self.row_up(1)
        } else {
            self
        }
    }

    /// What the keys do that do something with the selected entry.
    #[verifier::opaque]
    pub open spec fn entry_step(self, c: char, now: u64) -> (AppView, EffectView) {
        if c == 'e' {
            self.editing(now)
        } else if c == 'i' {
            self.inspecting(now)
        } else if c == 'x' {
            self.excluded_selected(now)
        } else if c == 'o' {
            self.opening(now)
        } else if c == 'y' {
            self.yanking(now)
        } else {
            still(self)
        }
    }

    /// What the keys do that lead elsewhere.
    #[verifier::opaque]
    pub open spec fn travel_step(self, c: char, env: Env) -> (AppView, EffectView) {
        if c == '~' {
            self.went_home(env.home_text())
        } else if c == 'r' {
            (self.scans_forgotten(), EffectView::Rescan { path: self.root.path@ })
        } else if c == 'u' {
            self.went_up(env.now)
        } else {
            self.picker_opened(env.now, env.home_text())
        }
    }

    /// What a character does on the main screen.
    pub open spec fn main_char(self, c: char, ctrl: bool, env: Env) -> (AppView, EffectView) {
        if c == 'q' || (ctrl && c == 'c') {
            (self, EffectView::Quit)
        } else if travels(c, ctrl) {
            self.travel_step(c, env)
        } else if takes_entry(c) {
            self.entry_step(c, env.now)
        } else if moves_cursor(c) {
            still(self.move_step(c))
        } else if brings_in_front(c) {
            still(self.front_step(c))
        } else if makes_item(c) {
            still(self.item_started(c == 'N'))
        } else if changes_view(c) {
            still(self.view_step(c, env.now))
        } else {
            still(self.look_step(c, env.now))
        }
    }

    /// What a key does on the main screen.
    #[verifier::opaque]
    pub open spec fn main_step(self, key: KeyEvent, env: Env) -> (AppView, EffectView) {
        match key.code {
            KeyCode::Char(c) => self.main_char(c, key.ctrl, env),
            KeyCode::Esc => if self.filter.active {
                still(self.unfiltered().flashed("filter cleared"@, env.now))
            } else {
                still(self)
            },
            KeyCode::Down => still(self.row_down(1)),
            KeyCode::Up => still(self.row_up(1)),
            KeyCode::Home => still(self.row_first()),
            KeyCode::End => still(self.row_last()),
            KeyCode::PageDown => still(self.row_down(self.half_page())),
            KeyCode::PageUp => still(self.row_up(self.half_page())),
            KeyCode::Enter => self.row_drilled(self.cursor),
            KeyCode::Backspace => self.went_up(env.now),
            _ => still(self),
        }
    }

    /// What a key does: it goes to the editor, the popup for a new entry, the
    /// permissions or the picker where they are open, in this order, else to the
    /// filter while it is typed, else to what is in front.
    pub open spec fn key_step(self, key: KeyEvent, env: Env) -> (AppView, EffectView) {
        if !key.press {
            still(self)
        } else if self.editor is Some {
            self.editor_step(self.editor->0, key, env.now)
        } else if self.new_item is Some {
            self.item_step(self.new_item->0, key)
        } else if self.perms is Some {
            self.perms_step(self.perms->0, key, env.now, env.root)
        } else if self.spotlight is Some {
            self.picker_step(self.spotlight->0, key, env.now, env.home_text())
        } else {
            match self.screen {
                Screen::Main => if self.filter.editing {
                    still(self.filter_step(key))
                } else {
                    self.main_step(key, env)
                },
                Screen::Help => still(self.on_screen(Screen::Main)),
                Screen::Warnings => still(self.warnings_step(key)),
                Screen::Settings => self.settings_step(key, env.now),
                Screen::Permissions | Screen::NewItem | Screen::Editor => still(self),
            }
        }
    }

    /// Whether the rows can be looked at.
    pub open spec fn rows_key_ready(self, key: KeyEvent) -> bool {
        &&& looks_at_rows(key) ==> self.rows_ready()
        &&& goes_up_rows(key) ==> self.cursor <= self.rows().len()
    }

    /// Whether a key can be handled.
    pub open spec fn key_ready(self, key: KeyEvent) -> bool {
        if !key.press {
            true
        } else if self.editor is Some {
            self.editor->0.edits_at_cursor(key) ==> self.editor->0.between_chars()
        } else if self.new_item is Some || self.perms is Some || self.spotlight is Some {
            true
        } else {
            match self.screen {
                Screen::Main => self.filter.editing || self.rows_key_ready(key),
                Screen::Settings => !self.deepens_too_far(key),
                _ => true,
            }
        }
    }
}

impl App {
    /// Handles a key while the filter is typed.
    fn handle_filter_key(&mut self, key: KeyEvent)
        ensures
            final(self)@ == old(self)@.filter_step(key),
    {
        match key.code {
            KeyCode::Esc => {
                self.clear_filter();
            },
            KeyCode::Enter => {
                self.filter.editing = false;
                if self.filter.query.as_str().unicode_len() == 0 {
                    self.filter.active = false;
                }
            },
            KeyCode::Backspace => {
                self.filter.query = drop_last_char(&self.filter.query);
            },
            KeyCode::Char(c) => {
                let mut query = self.filter.query.clone();
                push_char(&mut query, c);
                self.filter.query = query;
            },
            _ => {},
        }
        assert(self@ =~= old(self)@.filter_step(key));
    }

    pub(crate) fn scroll_warnings(&mut self, i: usize)
        ensures
            final(self)@ == old(self)@.at_warning(i as nat),
    {
        self.warnings_scroll = i;
        assert(self@ =~= old(self)@.at_warning(i as nat));
    }

    fn scroll_warnings_down(&mut self)
        ensures
            final(self)@ == old(self)@.warning_below(),
    {
        assert(self.warnings@.len() == self@.warnings.len());
        if self.warnings.len() > 0 && self.warnings_scroll < self.warnings.len() - 1 {
            self.scroll_warnings(self.warnings_scroll + 1);
        }
    }

    fn handle_warnings_key(&mut self, key: KeyEvent)
        ensures
            final(self)@ == old(self)@.warnings_step(key),
    {
        assert(self.warnings@.len() == self@.warnings.len());
        match key.code {
            KeyCode::Esc => {
                self.set_screen(Screen::Main);
            },
            KeyCode::Down => {
                self.scroll_warnings_down();
            },
            KeyCode::Up => {
                self.scroll_warnings(recede(self.warnings_scroll, 1));
            },
            KeyCode::PageDown => {
                self.scroll_warnings(advance(self.warnings_scroll, 10, self.warnings.len()));
            },
            KeyCode::PageUp => {
                self.scroll_warnings(recede(self.warnings_scroll, 10));
            },
            KeyCode::Char(c) => {
                if c == 'q' || c == 'w' {
                    self.set_screen(Screen::Main);
                } else if c == 'j' {
                    self.scroll_warnings_down();
                } else if c == 'k' {
                    self.scroll_warnings(recede(self.warnings_scroll, 1));
                }
            },
            _ => {},
        }
    }

    pub(crate) fn open_warnings(&mut self)
        ensures
            final(self)@ == old(self)@.warnings_opened(),
    {
        self.scroll_warnings(0);
        self.set_screen(Screen::Warnings);
    }

    pub(crate) fn open_settings(&mut self)
        ensures
            final(self)@ == old(self)@.settings_opened(),
    {
        self.settings_cursor = 0;
        self.settings_scroll = 0;
        self.screen = Screen::Settings;
        assert(self@ =~= old(self)@.settings_opened());
    }

    pub(crate) fn set_mode(&mut self, mode: Mode)
        ensures
            final(self)@ == old(self)@.in_mode(mode),
    {
        self.config.mode = mode;
        assert(self@ =~= old(self)@.in_mode(mode));
    }

    pub(crate) fn select_row(&mut self, i: usize)
        ensures
            final(self)@ == old(self)@.at_row(i as nat),
    {
        self.cursor = i;
        assert(self@ =~= old(self)@.at_row(i as nat));
    }

    pub(crate) fn move_down(&mut self, steps: usize)
        requires
            old(self)@.rows_ready(),
        ensures
            final(self)@ == old(self)@.row_down(steps as nat),
    {
        let rows = self.build_rows();
        let i = step_forward(&rows, self.cursor, steps);
        self.select_row(i);
    }

    pub(crate) fn move_up(&mut self, steps: usize)
        requires
            old(self)@.rows_ready(),
            old(self)@.cursor <= old(self)@.rows().len(),
        ensures
            final(self)@ == old(self)@.row_up(steps as nat),
    {
        let rows = self.build_rows();
        assert(rows@.len() == row_views(rows@).len());
        let i = step_backward(&rows, self.cursor, steps);
        self.select_row(i);
    }

    fn move_first(&mut self)
        requires
            old(self)@.rows_ready(),
        ensures
            final(self)@ == old(self)@.row_first(),
    {
        let rows = self.build_rows();
        let i = snap_cursor_to_selectable(&rows, 0);
        self.select_row(i);
    }

    fn move_last(&mut self)
        requires
            old(self)@.rows_ready(),
        ensures
            final(self)@ == old(self)@.row_last(),
    {
        let rows = self.build_rows();
        let i = last_selectable_idx(&rows);
        self.select_row(i);
    }

    fn half_page(&self) -> (r: usize)
        ensures
            r == self@.half_page(),
    {
        let half: usize = self.body_visible_rows / 2;
        if half < 1 {
            1
        } else {
            half
        }
    }

    /// Goes into the directory of a row.
    pub(crate) fn drill_row(&mut self, i: usize) -> (r: Effect)
        requires
            old(self)@.rows_ready(),
        ensures
            (final(self)@, r@) == old(self)@.row_drilled(i as nat),
    {
        let rows = self.build_rows();
        assert(rows@.len() == row_views(rows@).len());
        if i < rows.len() {
            let row = &rows[i];
            assert(row@ == self@.rows()[i as int]);
            if row.is_dir {
                if let Some(p) = clone_opt(&row.path) {
                    if !same_path(&p, &self.root.path) {
                        return self.drill_into(p);
                    }
                }
            }
        }
        Effect::Nothing
    }

    fn handle_view_char(&mut self, c: char, now: u64)
        ensures
            final(self)@ == old(self)@.view_step(c, now),
            old(self)@.wf() ==> final(self)@.wf(),
    {
        proof {
            reveal(AppView::view_step);
        }
        if c == '.' || c == 'h' {
            self.toggle_hidden();
            self.flash(concat("hidden files: ", onoff(self.config.view.show_hidden)), now);
        } else if c == 'd' {
            self.toggle_empty();
            self.flash(concat("empty dirs: ", onoff(self.config.view.show_empty)), now);
        } else if c == 'p' {
            self.toggle_percent();
            self.flash(concat("percent column: ", onoff(self.config.view.show_percent)), now);
        } else if c == 'm' {
            self.toggle_modified();
            self.flash(concat("modified column: ", onoff(self.config.view.show_modified)), now);
        }
    }

    fn deepen(&mut self)
        ensures
            final(self)@ == old(self)@.with_config(old(self)@.config.deepened()),
    {
        if self.config.depth < usize::MAX {
            self.set_depth(self.config.depth + 1);
        }
        assert(self@ =~= old(self)@.with_config(old(self)@.config.deepened()));
    }

    fn flatten(&mut self)
        ensures
            final(self)@ == old(self)@.with_config(old(self)@.config.flattened()),
    {
        if self.config.depth > 0 {
            self.set_depth(self.config.depth - 1);
        }
        assert(self@ =~= old(self)@.with_config(old(self)@.config.flattened()));
    }

    fn handle_look_char(&mut self, c: char, now: u64)
        ensures
            final(self)@ == old(self)@.look_step(c, now),
            old(self)@.wf() ==> final(self)@.wf(),
    {
        proof {
            reveal(AppView::look_step);
        }
        if c == 'f' {
            self.toggle_files();
        } else if c == 's' {
            self.cycle_sort();
        } else if c == 'c' {
            self.cycle_theme();
            self.flash(concat("theme: ", theme_name(self.config.theme)), now);
        } else if c == '1' {
            self.set_mode(Mode::Tree);
        } else if c == '2' {
            self.set_mode(Mode::Bars);
        } else if c == '3' {
            self.set_mode(Mode::Treemap);
        } else if c == '4' {
            self.set_mode(Mode::Flat);
        } else if c == '+' {
            self.deepen();
        } else if c == '-' {
            self.flatten();
        }
    }

    fn handle_front_char(&mut self, c: char)
        ensures
            final(self)@ == old(self)@.front_step(c),
            old(self)@.wf() ==> final(self)@.wf(),
    {
        proof {
            reveal(AppView::front_step);
        }
        if c == '?' {
            self.set_screen(Screen::Help);
        } else if c == 'w' {
            self.open_warnings();
        } else if c == 'S' {
            self.open_settings();
        } else if c == '/' {
            self.start_filter();
        }
    }

    fn handle_move_char(&mut self, c: char)
        requires
            old(self)@.rows_ready(),
            c == 'k' ==> old(self)@.cursor <= old(self)@.rows().len(),
        ensures
            final(self)@ == old(self)@.move_step(c),
            old(self)@.wf() ==> final(self)@.wf(),
    {
        proof {
            reveal(AppView::move_step);
        }
        if c == 'g' {
            self.move_first();
        } else if c == 'G' {
            self.move_last();
        } else if c == 'j' {
            self.move_down(1);
        } else if c == 'k' {
            self.move_up(1);
        }
    }

    fn handle_entry_char(&mut self, c: char, now: u64) -> (r: Effect)
        requires
            old(self)@.rows_ready(),
        ensures
            (final(self)@, r@) == old(self)@.entry_step(c, now),
            old(self)@.wf() ==> final(self)@.wf(),
    {
        proof {
            reveal(AppView::entry_step);
        }
        if c == 'e' {
            self.open_editor_for_selected(now)
        } else if c == 'i' {
            self.open_perms_inspector(now)
        } else if c == 'x' {
            self.exclude_selected(now)
        } else if c == 'o' {
            self.open_selected(now)
        } else if c == 'y' {
            self.yank_selected(now)
        } else {
            Effect::Nothing
        }
    }

    fn handle_travel_char(&mut self, c: char, env: &Env) -> (r: Effect)
        requires
            old(self)@.wf(),
        ensures
            (final(self)@, r@) == old(self)@.travel_step(c, *env),
            final(self)@.wf(),
    {
        proof {
            reveal(AppView::travel_step);
        }
        if c == '~' {
            self.jump_home(env.home_str())
        } else if c == 'r' {
            self.forget_scans();
            Effect::Rescan { path: self.root.path.clone() }
        } else if c == 'u' {
            self.go_up(env.now)
        } else {
            self.open_spotlight(env)
        }
    }

    fn start_filter(&mut self)
        ensures
            final(self)@ == old(self)@.filtered(
                (FilterView { editing: true, active: true, ..old(self)@.filter }),
            ),
    {
        self.filter.editing = true;
        self.filter.active = true;
        assert(self@ =~= old(self)@.filtered(
            FilterView { editing: true, active: true, ..old(self)@.filter },
        ));
    }

    fn handle_main_char(&mut self, c: char, ctrl: bool, env: &Env) -> (r: Effect)
        requires
            old(self)@.wf(),
            looks_at_rows(
                (KeyEvent { code: KeyCode::Char(c), ctrl, shift: false, press: true }),
            ) ==> old(self)@.rows_ready(),
            c == 'k' ==> old(self)@.cursor <= old(self)@.rows().len(),
        ensures
            (final(self)@, r@) == old(self)@.main_char(c, ctrl, *env),
            final(self)@.wf(),
    {
        if c == 'q' || (ctrl && c == 'c') {
            return Effect::Quit;
        }
        if travels(c, ctrl) {
            return self.handle_travel_char(c, env);
        }
        if takes_entry(c) {
            return self.handle_entry_char(c, env.now);
        }
        if moves_cursor(c) {
            self.handle_move_char(c);
        } else if brings_in_front(c) {
            self.handle_front_char(c);
        } else if makes_item(c) {
            self.start_item(c == 'N');
        } else if changes_view(c) {
            self.handle_view_char(c, env.now);
        } else {
            self.handle_look_char(c, env.now);
        }
        Effect::Nothing
    }

    fn handle_main_key(&mut self, key: KeyEvent, env: &Env) -> (r: Effect)
        requires
            old(self)@.wf(),
            old(self)@.rows_key_ready(key),
        ensures
            (final(self)@, r@) == old(self)@.main_step(key, *env),
            final(self)@.wf(),
    {
        proof {
            reveal(AppView::main_step);
        }
        match key.code {
            KeyCode::Char(c) => {
                return self.handle_main_char(c, key.ctrl, env);
            },
            KeyCode::Esc => {
                if self.filter.active {
                    self.clear_filter();
                    self.flash("filter cleared".to_owned(), env.now);
                }
            },
            KeyCode::Down => {
                self.move_down(1);
            },
            KeyCode::Up => {
                self.move_up(1);
            },
            KeyCode::Home => {
                self.move_first();
            },
            KeyCode::End => {
                self.move_last();
            },
            KeyCode::PageDown => {
                let half = self.half_page();
                self.move_down(half);
            },
            KeyCode::PageUp => {
                let half = self.half_page();
                self.move_up(half);
            },
            KeyCode::Enter => {
                return self.drill_row(self.cursor);
            },
            KeyCode::Backspace => {
                return self.go_up(env.now);
            },
            _ => {},
        }
        Effect::Nothing
    }

    /// Handles a key.
    #[verifier::rlimit(30)]
    pub fn handle_key_event(&mut self, key: KeyEvent, env: &Env) -> (r: Effect)
        requires
            old(self)@.wf(),
            old(self)@.key_ready(key),
        ensures
            (final(self)@, r@) == old(self)@.key_step(key, *env),
            final(self)@.wf(),
    {
        if !key.press {
            return Effect::Nothing;
        }
        if self.editor.is_some() {
            return self.handle_editor_key(key, env.now);
        }
        if self.new_item.is_some() {
            return self.handle_new_item_key(key);
        }
        if self.perms.is_some() {
            return self.handle_perms_key(key, env);
        }
        if self.spotlight.is_some() {
            return self.handle_spotlight_key(key, env);
        }
        match self.screen {
            Screen::Main => {
                if self.filter.editing {
                    self.handle_filter_key(key);
                    return Effect::Nothing;
                }
                self.handle_main_key(key, env)
            },
            Screen::Help => {
                self.set_screen(Screen::Main);
                Effect::Nothing
            },
            Screen::Warnings => {
                self.handle_warnings_key(key);
                Effect::Nothing
            },
            Screen::Settings => self.handle_settings_key(key, env.now),
            Screen::Permissions | Screen::NewItem | Screen::Editor => Effect::Nothing,
        }
    }

    fn accepts_row_key(&self, key: KeyEvent) -> (r: bool)
        ensures
            r == self@.rows_key_ready(key),
    {
        let looks = match key.code {
            KeyCode::Char(c) => c == 'e' || c == 'i' || c == 'g' || c == 'G' || c == 'x'
                || c == 'o' || c == 'y' || c == 'j' || c == 'k',
            KeyCode::Down | KeyCode::Up | KeyCode::Home | KeyCode::End | KeyCode::PageDown
            | KeyCode::PageUp | KeyCode::Enter => true,
            _ => false,
        };
        if !looks {
            return true;
        }
        if !self.can_build_rows() {
            return false;
        }
        let up = key.code == KeyCode::Up || key.code == KeyCode::PageUp || key.code
            == KeyCode::Char('k');
        if !up {
            return true;
        }
        let rows = self.build_rows();
        assert(rows@.len() == row_views(rows@).len());
        self.cursor <= rows.len()
    }

    /// Whether a key can be handled.
    pub fn accepts_key(&self, key: KeyEvent) -> (r: bool)
        requires
            self@.wf(),
        ensures
            r == self@.key_ready(key),
    {
        if !key.press {
            return true;
        }
        if let Some(e) = &self.editor {
            return e.accepts(key);
        }
        if self.new_item.is_some() || self.perms.is_some() || self.spotlight.is_some() {
            return true;
        }
        match self.screen {
            Screen::Main => self.filter.editing || self.accepts_row_key(key),
            Screen::Settings => {
                !((key.code == KeyCode::Char('+') || key.code == KeyCode::Char('='))
                    && self.settings_cursor == 0 && self.config.depth == usize::MAX)
            },
            _ => true,
        }
    }
}

/// While the editor is open, a key changes nothing but the editor, unless it
/// closes it.
pub proof fn editor_swallows_keys(a: AppView, key: KeyEvent, env: Env)
    requires
        a.editor is Some,
        a.key_step(key, env).0.editor is Some,
    ensures
        a.key_step(key, env).0 == (AppView { editor: a.key_step(key, env).0.editor, ..a }),
{
    reveal(AppView::editor_step);
    let e = EditorView { size: a.last_size, ..a.editor->0 };
    let t = e.key_step(key, env.now);
    assert(a.editor_answered(t.0, t.1).0.editor is Some ==> a.editor_answered(t.0, t.1).0
        =~= a.editing_with(t.0));
}

/// While the popup for a new entry is open, a key changes nothing but the popup,
/// unless it closes it.
pub proof fn popup_swallows_keys(a: AppView, key: KeyEvent, env: Env)
    requires
        a.editor is None,
        a.new_item is Some,
    ensures
        a.key_step(key, env).0 == (AppView {
            new_item: a.key_step(key, env).0.new_item,
            screen: a.key_step(key, env).0.screen,
            ..a
        }),
        a.key_step(key, env).0.new_item is Some ==> a.key_step(key, env).0.screen == a.screen,
{
    reveal(AppView::item_step);
}

/// While the permissions are open, a key changes neither rows nor settings.
pub proof fn permissions_swallow_keys(a: AppView, key: KeyEvent, env: Env)
    requires
        a.editor is None,
        a.new_item is None,
        a.perms is Some,
    ensures
        a.key_step(key, env).0 == (AppView {
            perms: a.key_step(key, env).0.perms,
            screen: a.key_step(key, env).0.screen,
            status_msg: a.key_step(key, env).0.status_msg,
            ..a
        }),
{
}

/// Whatever is in front of the rows, a key does not move the cursor there, and
/// neither does one that the picker takes.
pub proof fn rows_stay_behind_overlays(a: AppView, key: KeyEvent, env: Env)
    requires
        a.editor is None,
        a.screen != Screen::Main || a.new_item is Some || a.perms is Some || a.spotlight is Some
            || a.filter.editing,
    ensures
        a.key_step(key, env).0.cursor == a.cursor,
        a.key_step(key, env).0.root == a.root,
{
    reveal(AppView::item_step);
}

/// Only a key of the main screen ends the program.
#[verifier::rlimit(30)]
pub proof fn only_main_screen_quits(a: AppView, key: KeyEvent, env: Env)
    requires
        a.key_step(key, env).1 is Quit,
    ensures
        a.screen == Screen::Main,
        a.editor is None && a.new_item is None && a.perms is None,
        a.spotlight is None && !a.filter.editing,
        key.press,
{
    reveal(AppView::editor_step);
    reveal(AppView::item_step);
}

} // verus!
