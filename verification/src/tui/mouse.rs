//! Clicks and the wheel.

use vstd::prelude::*;

use crate::display::row_views;
use crate::keys::{MouseEvent, MouseKind};
use crate::layout::{plus16, Rect};
use crate::tui::input::still;
use crate::tui::rows::selectable;
use crate::tui::settings::{advance, advanced, recede, receded, SettingKind};
use crate::tui::{Action, App, AppView, Effect, EffectView, HitRegion, Screen};

verus! {

/// Two clicks within this time, in nanoseconds, are a double click.
pub const DOUBLE_CLICK_NS: u64 = 450_000_000;

/// Whether a cell lies in an area.
#[verifier::allow_in_spec]
pub fn point_in(rect: Rect, x: u16, y: u16) -> bool
    returns
        x >= rect.x && x < plus16(rect.x, rect.width) && y >= rect.y && y < plus16(
            rect.y,
            rect.height,
        ),
{
    x >= rect.x && x < plus16(rect.x, rect.width) && y >= rect.y && y < plus16(
        rect.y,
        rect.height,
    )
}

/// What the first of the regions from `i` on does that holds a cell.
pub open spec fn hit_from(hits: Seq<HitRegion>, i: int, x: u16, y: u16) -> Option<Action>
    decreases hits.len() - i,
{
    if i >= hits.len() || i < 0 {
        None
    } else if point_in(hits[i].rect, x, y) {
        Some(hits[i].action)
    } else {
        hit_from(hits, i + 1, x, y)
    }
}

/// Where regions lie over one another, the one that was registered first is
/// clicked.
pub proof fn first_region_is_clicked(hits: Seq<HitRegion>, i: int, x: u16, y: u16)
    requires
        0 <= i < hits.len(),
        point_in(hits[i].rect, x, y),
        forall|j: int| 0 <= j < i ==> !point_in(#[trigger] hits[j].rect, x, y),
    ensures
        hit_from(hits, 0, x, y) == Some(hits[i].action),
{
    lemma_skip_misses(hits, 0, i, x, y);
}

/// A click on the depth in the status bar does nothing.
pub proof fn depth_is_only_shown(a: AppView, is_double: bool, now: u64)
    ensures
        a.acted(Action::Noop, is_double, now) == (a, EffectView::Nothing),
{
    reveal(AppView::acted_look);
}

proof fn lemma_skip_misses(hits: Seq<HitRegion>, from: int, to: int, x: u16, y: u16)
    requires
        0 <= from <= to <= hits.len(),
        forall|j: int| from <= j < to ==> !point_in(#[trigger] hits[j].rect, x, y),
    ensures
        hit_from(hits, from, x, y) == hit_from(hits, to, x, y),
    decreases to - from,
{
    if from < to {
        assert(!point_in(hits[from].rect, x, y));
        lemma_skip_misses(hits, from + 1, to, x, y);
    }
}

impl AppView {
    /// What the wheel does, turned down.
    pub open spec fn wheel_down(self) -> AppView {
        match self.screen {
            Screen::Main => self.row_down(3),
            Screen::Settings => self.at_setting(
                advanced(self.settings_cursor, 3, self.setting_items().len()),
            ),
            Screen::Warnings => self.at_warning(
                advanced(self.warnings_scroll, 3, self.warnings.len()),
            ),
            _ => self,
        }
    }

    /// What the wheel does, turned up.
    pub open spec fn wheel_up(self) -> AppView {
        match self.screen {
            Screen::Main => self.row_up(3),
            Screen::Settings => self.at_setting(receded(self.settings_cursor, 3)),
            Screen::Warnings => self.at_warning(receded(self.warnings_scroll, 3)),
            _ => self,
        }
    }

    /// The settings are saved where their panel is left.
    pub open spec fn leaving(self) -> EffectView {
        if self.screen == Screen::Settings {
            EffectView::SaveSettings
        } else {
            EffectView::Nothing
        }
    }

    /// What the actions do that bring something in front or away.
    #[verifier::opaque]
    pub open spec fn acted_front(self, action: Action) -> (AppView, EffectView) {
        match action {
            Action::OpenHelp => still(self.on_screen(Screen::Help)),
            Action::OpenSettings => still(self.settings_opened()),
            Action::CloseOverlay => (self.on_screen(Screen::Main), self.leaving()),
            Action::Quit => (AppView { should_quit: true, ..self }, self.leaving()),
            Action::OpenWarnings => still(self.warnings_opened()),
            _ => still(self),
        }
    }

    /// What the actions do that change how the tree is shown.
    #[verifier::opaque]
    pub open spec fn acted_look(self, action: Action) -> AppView {
        let c = self.config;
        match action {
            Action::SetMode(m) => self.in_mode(m),
            Action::CycleSort => self.with_config(c.sort_cycled()),
            Action::ToggleHidden => self.with_config(c.hidden_toggled()),
            Action::ToggleEmpty => self.with_config(c.empty_toggled()),
            Action::TogglePercent => self.with_config(c.percent_toggled()),
            Action::ToggleModified => self.with_config(c.modified_toggled()),
            Action::ClearFilter => self.unfiltered(),
            _ => self,
        }
    }

    /// What the actions of the settings panel do.
    #[verifier::opaque]
    pub open spec fn acted_setting(self, action: Action, now: u64) -> (AppView, EffectView) {
        match action {
            Action::SettingsRow(i) => self.at_setting(i as nat).setting_entered(now),
            Action::SettingsResetDefaults => self.setting_activated(
                SettingKind::ResetDefaults,
                now,
            ),
            Action::SettingsClearFilter => self.setting_activated(SettingKind::ClearFilter, now),
            _ => still(self),
        }
    }

    /// What an action does.
    pub open spec fn acted(self, action: Action, is_double: bool, now: u64) -> (
        AppView,
        EffectView,
    ) {
        match action {
            Action::OpenHelp | Action::OpenSettings | Action::CloseOverlay | Action::Quit
            | Action::OpenWarnings => self.acted_front(action),
            Action::SelectRow(i) => if is_double {
                self.at_row(i as nat).row_drilled(i as nat)
            } else {
                still(self.at_row(i as nat))
            },
            Action::DrillRow(i) => self.at_row(i as nat).row_drilled(i as nat),
            Action::SettingsRow(_) | Action::SettingsResetDefaults
            | Action::SettingsClearFilter => self.acted_setting(action, now),
            _ => still(self.acted_look(action)),
        }
    }

    /// Whether a click is the second of two in one place.
    pub open spec fn is_double(self, x: u16, y: u16, now: u64) -> bool {
        match self.last_click {
            Some((t, c, r)) => (now < t || now - t < DOUBLE_CLICK_NS) && c == x && r == y,
            None => false,
        }
    }

    /// The row that is drawn at a line of the screen.
    pub open spec fn row_at(self, y: u16) -> nat {
        self.body_scroll + (y - self.body_rect.y) as nat
    }

    /// What a click on the rows does.
    pub open spec fn row_clicked(self, i: nat, is_double: bool, now: u64) -> (
        AppView,
        EffectView,
    ) {
        if !selectable(self.rows(), i as int) {
            still(self)
        } else if is_double {
            self.acted(Action::DrillRow(i as usize), true, now)
        } else {
            self.acted(Action::SelectRow(i as usize), false, now)
        }
    }

    /// What a click does: what the first region there says, else it selects a
    /// row or goes into it.
    pub open spec fn clicked(self, x: u16, y: u16, now: u64) -> (AppView, EffectView) {
        let a = AppView { last_click: Some((now, x, y)), ..self };
        let is_double = self.is_double(x, y, now);
        match hit_from(self.hits, 0, x, y) {
            Some(action) => a.acted(action, is_double, now),
            None => if self.screen == Screen::Main && point_in(self.body_rect, x, y) {
                a.row_clicked(self.row_at(y), is_double, now)
            } else {
                still(a)
            },
        }
    }

    /// What the mouse does.
    pub open spec fn mouse_step(self, m: MouseEvent, now: u64) -> (AppView, EffectView) {
        match m.kind {
            MouseKind::ScrollDown => still(self.wheel_down()),
            MouseKind::ScrollUp => still(self.wheel_up()),
            MouseKind::LeftDown => self.clicked(m.column, m.row, now),
            MouseKind::Other => still(self),
        }
    }

    /// Whether an action can be done.
    pub open spec fn action_ready(self, action: Action, is_double: bool) -> bool {
        action is DrillRow || (action is SelectRow && is_double) ==> self.rows_ready()
    }

    /// Whether what the mouse did can be handled.
    pub open spec fn mouse_ready(self, m: MouseEvent, now: u64) -> bool {
        match m.kind {
            MouseKind::ScrollDown => self.screen == Screen::Main ==> self.rows_ready(),
            MouseKind::ScrollUp => self.screen == Screen::Main ==> self.rows_ready()
                && self.cursor <= self.rows().len(),
            MouseKind::LeftDown => match hit_from(self.hits, 0, m.column, m.row) {
                Some(action) => self.action_ready(
                    action,
                    self.is_double(m.column, m.row, now),
                ),
                None => self.screen == Screen::Main && point_in(
                    self.body_rect,
                    m.column,
                    m.row,
                ) ==> self.rows_ready(),
            },
            MouseKind::Other => true,
        }
    }
}

/// What the first region does that holds a cell.
fn find_hit(hits: &Vec<HitRegion>, x: u16, y: u16) -> (r: Option<Action>)
    ensures
        r == hit_from(hits@, 0, x, y),
{
    let mut i: usize = 0;
    while i < hits.len()
        invariant
            i <= hits@.len(),
            hit_from(hits@, 0, x, y) == hit_from(hits@, i as int, x, y),
        decreases hits@.len() - i,
    {
        if point_in(hits[i].rect, x, y) {
            return Some(hits[i].action);
        }
        i = i + 1;
    }
    None
}

impl App {
    fn scroll_down(&mut self)
        requires
            old(self)@.screen == Screen::Main ==> old(self)@.rows_ready(),
        ensures
            final(self)@ == old(self)@.wheel_down(),
            old(self)@.wf() ==> final(self)@.wf(),
    {
        match self.screen {
            Screen::Main => {
                self.move_down(3);
            },
            Screen::Settings => {
                let i = advance(self.settings_cursor, 3, self.settings_len());
                self.select_setting(i);
            },
            Screen::Warnings => {
                assert(self.warnings@.len() == self@.warnings.len());
                self.scroll_warnings(advance(self.warnings_scroll, 3, self.warnings.len()));
            },
            _ => {},
        }
    }

    fn scroll_up(&mut self)
        requires
            old(self)@.screen == Screen::Main ==> old(self)@.rows_ready() && old(self)@.cursor
                <= old(self)@.rows().len(),
        ensures
            final(self)@ == old(self)@.wheel_up(),
            old(self)@.wf() ==> final(self)@.wf(),
    {
        match self.screen {
            Screen::Main => {
                self.move_up(3);
            },
            Screen::Settings => {
                let i = recede(self.settings_cursor, 3);
                self.select_setting(i);
            },
            Screen::Warnings => {
                self.scroll_warnings(recede(self.warnings_scroll, 3));
            },
            _ => {},
        }
    }

    fn leave(&self) -> (r: Effect)
        ensures
            r@ == self@.leaving(),
    {
        if self.screen == Screen::Settings {
            Effect::SaveSettings
        } else {
            Effect::Nothing
        }
    }

    fn request_quit(&mut self)
        ensures
            final(self)@ == (AppView { should_quit: true, ..old(self)@ }),
    {
        self.should_quit = true;
        assert(self@ =~= (AppView { should_quit: true, ..old(self)@ }));
    }

    fn apply_front(&mut self, action: Action) -> (r: Effect)
        ensures
            (final(self)@, r@) == old(self)@.acted_front(action),
            old(self)@.wf() ==> final(self)@.wf(),
    {
        proof {
            reveal(AppView::acted_front);
        }
        let effect = self.leave();
        match action {
            Action::OpenHelp => {
                self.set_screen(Screen::Help);
                Effect::Nothing
            },
            Action::OpenSettings => {
                self.open_settings();
                Effect::Nothing
            },
            Action::CloseOverlay => {
                self.set_screen(Screen::Main);
                effect
            },
            Action::Quit => {
                self.request_quit();
                effect
            },
            Action::OpenWarnings => {
                self.open_warnings();
                Effect::Nothing
            },
            _ => Effect::Nothing,
        }
    }

    fn apply_look(&mut self, action: Action)
        ensures
            final(self)@ == old(self)@.acted_look(action),
            old(self)@.wf() ==> final(self)@.wf(),
    {
        proof {
            reveal(AppView::acted_look);
        }
        match action {
            Action::SetMode(m) => {
                self.set_mode(m);
            },
            Action::CycleSort => {
                self.cycle_sort();
            },
            Action::ToggleHidden => {
                self.toggle_hidden();
            },
            Action::ToggleEmpty => {
                self.toggle_empty();
            },
            Action::TogglePercent => {
                self.toggle_percent();
            },
            Action::ToggleModified => {
                self.toggle_modified();
            },
            Action::ClearFilter => {
                self.clear_filter();
            },
            _ => {},
        }
    }

    fn apply_setting(&mut self, action: Action, now: u64) -> (r: Effect)
        ensures
            (final(self)@, r@) == old(self)@.acted_setting(action, now),
            old(self)@.wf() ==> final(self)@.wf(),
    {
        proof {
            reveal(AppView::acted_setting);
        }
        match action {
            Action::SettingsRow(i) => {
                self.select_setting(i);
                self.enter_setting(now)
            },
            Action::SettingsResetDefaults => self.activate_setting(
                SettingKind::ResetDefaults,
                now,
            ),
            Action::SettingsClearFilter => self.activate_setting(SettingKind::ClearFilter, now),
            _ => Effect::Nothing,
        }
    }

    /// Does what an action says.
    pub fn apply_action(&mut self, action: Action, is_double: bool, now: u64) -> (r: Effect)
        requires
            old(self)@.action_ready(action, is_double),
        ensures
            (final(self)@, r@) == old(self)@.acted(action, is_double, now),
            old(self)@.wf() ==> final(self)@.wf(),
    {
        match action {
            Action::OpenHelp | Action::OpenSettings | Action::CloseOverlay | Action::Quit
            | Action::OpenWarnings => self.apply_front(action),
            Action::SelectRow(i) => {
                self.select_row(i);
                if is_double {
                    return self.drill_row(i);
                }
                Effect::Nothing
            },
            Action::DrillRow(i) => {
                self.select_row(i);
                self.drill_row(i)
            },
            Action::SettingsRow(_) | Action::SettingsResetDefaults
            | Action::SettingsClearFilter => self.apply_setting(action, now),
            _ => {
                self.apply_look(action);
                Effect::Nothing
            },
        }
    }

    fn doubles(&self, x: u16, y: u16, now: u64) -> (r: bool)
        ensures
            r == self@.is_double(x, y, now),
    {
        match self.last_click {
            Some((t, c, r)) => (now < t || now - t < DOUBLE_CLICK_NS) && c == x && r == y,
            None => false,
        }
    }

    fn click_row(&mut self, y: u16, is_double: bool, now: u64) -> (r: Effect)
        requires
            old(self)@.rows_ready(),
            y >= old(self)@.body_rect.y,
        ensures
            (final(self)@, r@) == old(self)@.row_clicked(old(self)@.row_at(y), is_double, now),
            old(self)@.wf() ==> final(self)@.wf(),
    {
        let rows = self.build_rows();
        assert(rows@.len() == row_views(rows@).len());
        let local: usize = (y - self.body_rect.y) as usize;
        if self.body_scroll < rows.len() && local < rows.len() - self.body_scroll {
            let i: usize = self.body_scroll + local;
            assert(row_views(rows@)[i as int] == rows@[i as int]@);
            if !rows[i].is_hidden_summary {
                if is_double {
                    return self.apply_action(Action::DrillRow(i), true, now);
                }
                return self.apply_action(Action::SelectRow(i), false, now);
            }
        }
        Effect::Nothing
    }

    fn click(&mut self, x: u16, y: u16, now: u64) -> (r: Effect)
        requires
            old(self)@.mouse_ready(
                (MouseEvent { kind: MouseKind::LeftDown, column: x, row: y }),
                now,
            ),
        ensures
            (final(self)@, r@) == old(self)@.clicked(x, y, now),
            old(self)@.wf() ==> final(self)@.wf(),
    {
        let ghost v = self@;
        let hit = find_hit(&self.hits, x, y);
        let is_double = self.doubles(x, y, now);
        self.last_click = Some((now, x, y));
        let ghost a = AppView { last_click: Some((now, x, y)), ..v };
        assert(self@ =~= a);
        match hit {
            Some(action) => self.apply_action(action, is_double, now),
            None => {
                if self.screen == Screen::Main && point_in(self.body_rect, x, y) {
                    self.click_row(y, is_double, now)
                } else {
                    Effect::Nothing
                }
            },
        }
    }

    /// Handles what the mouse did.
    pub fn handle_mouse_event(&mut self, m: MouseEvent, now: u64) -> (r: Effect)
        requires
            old(self)@.wf(),
            old(self)@.mouse_ready(m, now),
        ensures
            (final(self)@, r@) == old(self)@.mouse_step(m, now),
            final(self)@.wf(),
    {
        match m.kind {
            MouseKind::ScrollDown => {
                self.scroll_down();
                Effect::Nothing
            },
            MouseKind::ScrollUp => {
                self.scroll_up();
                Effect::Nothing
            },
            MouseKind::LeftDown => self.click(m.column, m.row, now),
            MouseKind::Other => Effect::Nothing,
        }
    }

    /// Whether what the mouse did can be handled.
    pub fn accepts_mouse(&self, m: MouseEvent, now: u64) -> (r: bool)
        ensures
            r == self@.mouse_ready(m, now),
    {
        match m.kind {
            MouseKind::ScrollDown => self.screen != Screen::Main || self.can_build_rows(),
            MouseKind::ScrollUp => {
                if self.screen != Screen::Main {
                    return true;
                }
                if !self.can_build_rows() {
                    return false;
                }
                let rows = self.build_rows();
                assert(rows@.len() == row_views(rows@).len());
                self.cursor <= rows.len()
            },
            MouseKind::LeftDown => match find_hit(&self.hits, m.column, m.row) {
                Some(action) => {
                    let drills = match action {
                        Action::DrillRow(_) => true,
                        Action::SelectRow(_) => self.doubles(m.column, m.row, now),
                        _ => false,
                    };
                    !drills || self.can_build_rows()
                },
                None => self.screen != Screen::Main || !point_in(
                    self.body_rect,
                    m.column,
                    m.row,
                ) || self.can_build_rows(),
            },
            MouseKind::Other => true,
        }
    }
}

/// A click on a row and another at once in the same place lead into its
/// directory.
pub proof fn double_click_drills(a: AppView, x: u16, y: u16, now: u64, later: u64)
    requires
        a.screen == Screen::Main,
        hit_from(a.hits, 0, x, y) is None,
        point_in(a.body_rect, x, y),
        selectable(a.rows(), a.row_at(y) as int),
        a.row_at(y) <= usize::MAX,
        now <= later < now + DOUBLE_CLICK_NS,
        !a.is_double(x, y, now),
    ensures
        a.clicked(x, y, now).0.cursor == a.row_at(y),
        a.clicked(x, y, now).1 is Nothing,
        a.clicked(x, y, now).0.clicked(x, y, later).1 == a.row_drilled(a.row_at(y)).1,
{
    let b = a.clicked(x, y, now).0;
    let i = a.row_at(y);
    assert(b == (AppView { last_click: Some((now, x, y)), cursor: i, ..a }));
    assert(b.rows() == a.rows());
    let d = AppView { last_click: Some((later, x, y)), ..b };
    assert(d.rows() == a.rows());
    assert(d.at_row(i).rows() == a.rows());
}

} // verus!
