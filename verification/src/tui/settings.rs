//! The settings panel.

use vstd::prelude::*;

use crate::config::{default_config, Config, ConfigView, Theme, ViewOptions};
use crate::keys::{KeyCode, KeyEvent};
use crate::text::{decimal, decimal_text};
use crate::tui::navigate::{concat, concat3};
use crate::tui::{no_filter, App, AppView, Effect, EffectView, FilterState, Screen};

verus! {

/// What a line of the settings panel changes.
#[derive(Clone, Copy, Debug, PartialEq, Eq, Structural)]
pub enum SettingKind {
    ExcludeToggle(usize),
    DepthAdjust,
    ToggleModified,
    ToggleHidden,
    ToggleEmpty,
    TogglePercent,
    CycleTheme,
    ToggleShowFiles,
    ClearFilter,
    ResetDefaults,
}

/// A line of the settings panel.
pub struct SettingItem {
    pub label: String,
    pub kind: SettingKind,
}

/// The mathematical form of a [`SettingItem`].
#[verifier::ext_equal]
pub struct SettingView {
    pub label: Seq<char>,
    pub kind: SettingKind,
}

impl View for SettingItem {
    type V = SettingView;

    open spec fn view(&self) -> SettingView {
        SettingView { label: self.label@, kind: self.kind }
    }
}

pub open spec fn setting_views(v: Seq<SettingItem>) -> Seq<SettingView> {
    v.map_values(|s: SettingItem| s@)
}

/// A line of the settings panel.
pub open spec fn line_of(label: Seq<char>, kind: SettingKind) -> SettingView {
    SettingView { label, kind }
}

pub open spec fn onoff_text(on: bool) -> Seq<char> {
    if on {
        "ON"@
    } else {
        "OFF"@
    }
}

/// The name of a theme.
pub open spec fn theme_text(t: Theme) -> Seq<char> {
    match t {
        Theme::Default => "Default"@,
        Theme::HighContrast => "HighContrast"@,
        Theme::Monochrome => "Monochrome"@,
    }
}

/// How a flag is written.
pub(crate) fn onoff(on: bool) -> (r: &'static str)
    ensures
        r@ == onoff_text(on),
{
    if on {
        "ON"
    } else {
        "OFF"
    }
}

pub(crate) fn theme_name(t: Theme) -> (r: &'static str)
    ensures
        r@ == theme_text(t),
{
    match t {
        Theme::Default => "Default",
        Theme::HighContrast => "HighContrast",
        Theme::Monochrome => "Monochrome",
    }
}

/// Whether pattern `i` is in force; one without a flag is.
pub open spec fn pattern_on(c: ConfigView, i: int) -> bool {
    i >= c.excludes_enabled.len() || c.excludes_enabled[i]
}

/// The line of pattern `i`.
pub open spec fn pattern_line(c: ConfigView, i: int) -> SettingView {
    line_of(
        (if pattern_on(c, i) {
            "Exclude  [x]  "@
        } else {
            "Exclude  [ ]  "@
        }) + c.excludes[i],
        SettingKind::ExcludeToggle(i as usize),
    )
}

/// `at + by`, but not beyond the last of `n`.
pub open spec fn advanced(at: nat, by: nat, n: nat) -> nat {
    if at + by < n {
        at + by
    } else if n == 0 {
        0
    } else {
        (n - 1) as nat
    }
}

/// `at - by`, at least nothing.
pub open spec fn receded(at: nat, by: nat) -> nat {
    if at < by {
        0
    } else {
        (at - by) as nat
    }
}

/// `at + by`, but not beyond the last of `n`.
pub(crate) fn advance(at: usize, by: usize, n: usize) -> (r: usize)
    ensures
        r == advanced(at as nat, by as nat, n as nat),
{
    if at < n && by < n - at {
        at + by
    } else if n == 0 {
        0
    } else {
        n - 1
    }
}

/// `at - by`, at least nothing.
pub(crate) fn recede(at: usize, by: usize) -> (r: usize)
    ensures
        r == receded(at as nat, by as nat),
{
    if at < by {
        0
    } else {
        at - by
    }
}

impl ConfigView {
    pub open spec fn viewing(self, view: ViewOptions) -> ConfigView {
        ConfigView { view, ..self }
    }

    pub open spec fn hidden_toggled(self) -> ConfigView {
        self.viewing(ViewOptions { show_hidden: !self.view.show_hidden, ..self.view })
    }

    pub open spec fn empty_toggled(self) -> ConfigView {
        self.viewing(ViewOptions { show_empty: !self.view.show_empty, ..self.view })
    }

    pub open spec fn percent_toggled(self) -> ConfigView {
        self.viewing(ViewOptions { show_percent: !self.view.show_percent, ..self.view })
    }

    /// The column of dates is switched over, and with it the dates themselves.
    pub open spec fn modified_toggled(self) -> ConfigView {
        ConfigView {
            view: ViewOptions { show_modified: !self.view.show_modified, ..self.view },
            show_modified: !self.view.show_modified,
            ..self
        }
    }

    pub open spec fn files_toggled(self) -> ConfigView {
        ConfigView { show_files: !self.show_files, ..self }
    }

    /// With pattern `i` switched over, where it has a flag.
    pub open spec fn pattern_toggled(self, i: int) -> ConfigView {
        if 0 <= i < self.excludes_enabled.len() {
            ConfigView {
                excludes_enabled: self.excludes_enabled.update(i, !self.excludes_enabled[i]),
                ..self
            }
        } else {
            self
        }
    }

    /// The settings of a first run, but for the patterns.
    pub open spec fn reset(self) -> ConfigView {
        ConfigView {
            excludes: self.excludes,
            excludes_enabled: self.excludes_enabled,
            ..default_config()
        }
    }
}

/// Switching a view option, the files or a pattern over twice changes nothing.
pub proof fn toggles_undo_themselves(c: ConfigView, i: int)
    ensures
        c.hidden_toggled().hidden_toggled() == c,
        c.empty_toggled().empty_toggled() == c,
        c.percent_toggled().percent_toggled() == c,
        c.files_toggled().files_toggled() == c,
        c.pattern_toggled(i).pattern_toggled(i) == c,
        c.modified_toggled().modified_toggled().view == c.view,
        c.show_modified == c.view.show_modified ==> c.modified_toggled().modified_toggled() == c,
{
    assert(c.pattern_toggled(i).pattern_toggled(i) =~= c);
}

proof fn lemma_reset_active(c: ConfigView, n: nat)
    ensures
        c.reset().active_upto(n) == c.active_upto(n),
    decreases n,
{
    if n > 0 {
        lemma_reset_active(c, (n - 1) as nat);
    }
}

/// A reset keeps the patterns that are in force, and a second changes nothing.
pub proof fn reset_keeps_patterns(c: ConfigView)
    ensures
        c.reset().active() == c.active(),
        c.reset().excludes == c.excludes,
        c.reset().reset() == c.reset(),
{
    lemma_reset_active(c, c.excludes.len());
    lemma_reset_active(c, c.excludes_enabled.len());
}

impl AppView {
    /// The first lines of the settings panel.
    pub open spec fn fixed_settings(self) -> Seq<SettingView> {
        let c = self.config;
        seq![
            line_of(
                "Depth: "@ + decimal_text(c.depth as nat) + "  (+/- to change)"@,
                SettingKind::DepthAdjust,
            ),
            line_of(
                "Show modified date: "@ + onoff_text(c.view.show_modified || c.show_modified),
                SettingKind::ToggleModified,
            ),
            line_of(
                "Show hidden files: "@ + onoff_text(c.view.show_hidden),
                SettingKind::ToggleHidden,
            ),
            line_of(
                "Show empty dirs: "@ + onoff_text(c.view.show_empty),
                SettingKind::ToggleEmpty,
            ),
            line_of(
                "Show percentage column: "@ + onoff_text(c.view.show_percent),
                SettingKind::TogglePercent,
            ),
            line_of("Show files: "@ + onoff_text(c.show_files), SettingKind::ToggleShowFiles),
            line_of(
                "Theme: "@ + theme_text(c.theme) + "  (Enter to cycle)"@,
                SettingKind::CycleTheme,
            ),
        ]
    }

    /// The line of the filter, where there is one.
    pub open spec fn filter_settings(self) -> Seq<SettingView> {
        match self.query() {
            Some(q) => seq![
                line_of("Filter: \""@ + q + "\"   [clear]"@, SettingKind::ClearFilter),
            ],
            None => Seq::empty(),
        }
    }

    /// The lines of the patterns.
    pub open spec fn pattern_settings(self) -> Seq<SettingView> {
        Seq::new(self.config.excludes.len(), |i: int| pattern_line(self.config, i))
    }

    /// The lines of the settings panel.
    pub open spec fn setting_items(self) -> Seq<SettingView> {
        self.fixed_settings() + self.filter_settings() + self.pattern_settings() + seq![
            line_of("[Reset to defaults]"@, SettingKind::ResetDefaults),
        ]
    }

    /// With nothing filtered.
    pub open spec fn unfiltered(self) -> AppView {
        AppView { filter: no_filter(), ..self }
    }

    /// The scan of the directory that is shown.
    pub open spec fn rescan(self) -> EffectView {
        EffectView::Rescan { path: self.root.path@ }
    }

    /// What a line of the settings panel does when it is activated.
    pub open spec fn setting_activated(self, kind: SettingKind, now: u64) -> (
        AppView,
        EffectView,
    ) {
        let c = self.config;
        match kind {
            SettingKind::ExcludeToggle(i) => (
                self.with_config(c.pattern_toggled(i as int)),
                self.rescan(),
            ),
            SettingKind::DepthAdjust => (self, EffectView::Nothing),
            SettingKind::ToggleModified => (
                self.with_config(c.modified_toggled()),
                EffectView::Nothing,
            ),
            SettingKind::ToggleHidden => (
                self.with_config(c.hidden_toggled()),
                EffectView::Nothing,
            ),
            SettingKind::ToggleEmpty => (self.with_config(c.empty_toggled()), EffectView::Nothing),
            SettingKind::TogglePercent => (
                self.with_config(c.percent_toggled()),
                EffectView::Nothing,
            ),
            SettingKind::CycleTheme => (self.with_config(c.theme_cycled()), EffectView::Nothing),
            SettingKind::ToggleShowFiles => (
                self.with_config(c.files_toggled()),
                EffectView::Nothing,
            ),
            SettingKind::ClearFilter => (self.unfiltered(), EffectView::Nothing),
            SettingKind::ResetDefaults => (
                self.with_config(c.reset()).flashed("Settings reset to defaults"@, now),
                EffectView::Nothing,
            ),
        }
    }

    pub open spec fn at_setting(self, i: nat) -> AppView {
        AppView { settings_cursor: i, ..self }
    }

    /// What the selected line of the settings panel does when it is activated.
    pub open spec fn setting_entered(self, now: u64) -> (AppView, EffectView) {
        if self.settings_cursor < self.setting_items().len() {
            self.setting_activated(
                self.setting_items()[self.settings_cursor as int].kind,
                now,
            )
        } else {
            (self, EffectView::Nothing)
        }
    }

    /// What a key does in the settings panel.
    pub open spec fn settings_step(self, key: KeyEvent, now: u64) -> (AppView, EffectView) {
        let c = self.config;
        let n = self.setting_items().len();
        match key.code {
            KeyCode::Esc => (self.on_screen(Screen::Main), EffectView::SaveSettings),
            KeyCode::Up => (self.at_setting(receded(self.settings_cursor, 1)), EffectView::Nothing),
            KeyCode::Down => (self.setting_below(), EffectView::Nothing),
            KeyCode::PageDown => (
                self.at_setting(advanced(self.settings_cursor, 10, n)),
                EffectView::Nothing,
            ),
            KeyCode::PageUp => (
                self.at_setting(receded(self.settings_cursor, 10)),
                EffectView::Nothing,
            ),
            KeyCode::Enter => self.setting_entered(now),
            KeyCode::Char(ch) => if ch == 'q' || ch == 'S' {
                (self.on_screen(Screen::Main), EffectView::SaveSettings)
            } else if ch == 'k' {
                (self.at_setting(receded(self.settings_cursor, 1)), EffectView::Nothing)
            } else if ch == 'j' {
                (self.setting_below(), EffectView::Nothing)
            } else if (ch == '+' || ch == '=') && self.settings_cursor == 0 {
                (
                    self.with_config(ConfigView { depth: (c.depth + 1) as usize, ..c }),
                    self.rescan(),
                )
            } else if ch == '-' && self.settings_cursor == 0 && c.depth > 0 {
                (
                    self.with_config(ConfigView { depth: (c.depth - 1) as usize, ..c }),
                    EffectView::Nothing,
                )
            } else if ch == ' ' {
                self.setting_entered(now)
            } else {
                (self, EffectView::Nothing)
            },
            _ => (self, EffectView::Nothing),
        }
    }

    /// With the next line of the settings panel selected, where there is one.
    pub open spec fn setting_below(self) -> AppView {
        if self.settings_cursor + 1 < self.setting_items().len() {
            self.at_setting(self.settings_cursor + 1)
        } else {
            self
        }
    }

    /// Whether a key makes the depth too large to be counted.
    pub open spec fn deepens_too_far(self, key: KeyEvent) -> bool {
        &&& key.code == KeyCode::Char('+') || key.code == KeyCode::Char('=')
        &&& self.settings_cursor == 0
        &&& self.config.depth == usize::MAX
    }
}

fn push_item(v: &mut Vec<SettingItem>, label: String, kind: SettingKind)
    ensures
        setting_views(final(v)@) == setting_views(old(v)@).push(line_of(label@, kind)),
{
    v.push(SettingItem { label, kind });
    assert(setting_views(v@) =~= setting_views(old(v)@).push(line_of(label@, kind)));
}

impl App {
    fn fixed_items(&self) -> (r: Vec<SettingItem>)
        ensures
            setting_views(r@) == self@.fixed_settings(),
    {
        let c = &self.config;
        let mut v: Vec<SettingItem> = Vec::new();
        let depth = decimal(c.depth as u64);
        push_item(
            &mut v,
            concat3("Depth: ", &depth, "  (+/- to change)"),
            SettingKind::DepthAdjust,
        );
        push_item(
            &mut v,
            concat("Show modified date: ", onoff(c.view.show_modified || c.show_modified)),
            SettingKind::ToggleModified,
        );
        push_item(
            &mut v,
            concat("Show hidden files: ", onoff(c.view.show_hidden)),
            SettingKind::ToggleHidden,
        );
        push_item(
            &mut v,
            concat("Show empty dirs: ", onoff(c.view.show_empty)),
            SettingKind::ToggleEmpty,
        );
        push_item(
            &mut v,
            concat("Show percentage column: ", onoff(c.view.show_percent)),
            SettingKind::TogglePercent,
        );
        push_item(
            &mut v,
            concat("Show files: ", onoff(c.show_files)),
            SettingKind::ToggleShowFiles,
        );
        push_item(
            &mut v,
            concat3("Theme: ", theme_name(c.theme), "  (Enter to cycle)"),
            SettingKind::CycleTheme,
        );
        assert(setting_views(v@) =~= self@.fixed_settings());
        v
    }

    /// The lines of the settings panel.
    pub fn settings_items(&self) -> (r: Vec<SettingItem>)
        ensures
            setting_views(r@) == self@.setting_items(),
    {
        let ghost a = self@;
        let mut v = self.fixed_items();
        if self.filter.active && self.filter.query.as_str().unicode_len() > 0 {
            push_item(
                &mut v,
                concat3("Filter: \"", &self.filter.query, "\"   [clear]"),
                SettingKind::ClearFilter,
            );
        }
        let ghost head = a.fixed_settings() + a.filter_settings();
        let ghost lines = a.pattern_settings();
        assert(setting_views(v@) =~= head);
        assert(head + lines.take(0) =~= head);
        let mut i: usize = 0;
        while i < self.config.excludes.len()
            invariant
                i <= self.config.excludes@.len(),
                a == self@,
                lines == a.pattern_settings(),
                setting_views(v@) == head + lines.take(i as int),
            decreases self.config.excludes@.len() - i,
        {
            let on = i >= self.config.excludes_enabled.len() || self.config.excludes_enabled[i];
            let mark: &str = if on {
                "Exclude  [x]  "
            } else {
                "Exclude  [ ]  "
            };
            let label = concat(mark, &self.config.excludes[i]);
            assert(a.config.excludes.len() == self.config.excludes@.len());
            assert(line_of(label@, SettingKind::ExcludeToggle(i)) == pattern_line(
                a.config,
                i as int,
            ));
            push_item(&mut v, label, SettingKind::ExcludeToggle(i));
            i = i + 1;
            assert(lines.take(i as int) =~= lines.take(i - 1).push(lines[i - 1]));
            assert(head + lines.take(i as int) =~= (head + lines.take(i - 1)).push(lines[i - 1]));
        }
        assert(a.config.excludes.len() == self.config.excludes@.len());
        assert(lines.take(i as int) =~= lines);
        push_item(&mut v, "[Reset to defaults]".to_owned(), SettingKind::ResetDefaults);
        assert(setting_views(v@) =~= a.setting_items());
        v
    }

    /// Shows everything again.
    pub fn clear_filter(&mut self)
        ensures
            final(self)@ == old(self)@.unfiltered(),
    {
        self.filter = FilterState::default();
        assert(self@ =~= old(self)@.unfiltered());
    }

    pub(crate) fn toggle_hidden(&mut self)
        ensures
            final(self)@ == old(self)@.with_config(old(self)@.config.hidden_toggled()),
    {
        self.config.view.show_hidden = !self.config.view.show_hidden;
        assert(self@ =~= old(self)@.with_config(old(self)@.config.hidden_toggled()));
    }

    pub(crate) fn toggle_empty(&mut self)
        ensures
            final(self)@ == old(self)@.with_config(old(self)@.config.empty_toggled()),
    {
        self.config.view.show_empty = !self.config.view.show_empty;
        assert(self@ =~= old(self)@.with_config(old(self)@.config.empty_toggled()));
    }

    pub(crate) fn toggle_percent(&mut self)
        ensures
            final(self)@ == old(self)@.with_config(old(self)@.config.percent_toggled()),
    {
        self.config.view.show_percent = !self.config.view.show_percent;
        assert(self@ =~= old(self)@.with_config(old(self)@.config.percent_toggled()));
    }

    pub(crate) fn toggle_modified(&mut self)
        ensures
            final(self)@ == old(self)@.with_config(old(self)@.config.modified_toggled()),
    {
        self.config.view.show_modified = !self.config.view.show_modified;
        self.config.show_modified = self.config.view.show_modified;
        assert(self@ =~= old(self)@.with_config(old(self)@.config.modified_toggled()));
    }

    pub(crate) fn toggle_files(&mut self)
        ensures
            final(self)@ == old(self)@.with_config(old(self)@.config.files_toggled()),
    {
        self.config.show_files = !self.config.show_files;
        assert(self@ =~= old(self)@.with_config(old(self)@.config.files_toggled()));
    }

    fn toggle_pattern(&mut self, i: usize)
        ensures
            final(self)@ == old(self)@.with_config(old(self)@.config.pattern_toggled(i as int)),
    {
        if i < self.config.excludes_enabled.len() {
            let on = self.config.excludes_enabled[i];
            self.config.excludes_enabled.set(i, !on);
        }
        assert(self@ =~= old(self)@.with_config(old(self)@.config.pattern_toggled(i as int)));
    }

    fn reset_settings(&mut self)
        ensures
            final(self)@ == old(self)@.with_config(old(self)@.config.reset()),
    {
        let mut fresh = Config::default();
        std::mem::swap(&mut fresh.excludes, &mut self.config.excludes);
        std::mem::swap(&mut fresh.excludes_enabled, &mut self.config.excludes_enabled);
        self.config = fresh;
        assert(self@ =~= old(self)@.with_config(old(self)@.config.reset()));
    }

    /// The scan of the directory that is shown.
    pub(crate) fn rescan_here(&self) -> (r: Effect)
        ensures
            r@ == self@.rescan(),
    {
        Effect::Rescan { path: self.root.path.clone() }
    }

    /// Activates a line of the settings panel.
    pub fn activate_setting(&mut self, kind: SettingKind, now: u64) -> (r: Effect)
        ensures
            (final(self)@, r@) == old(self)@.setting_activated(kind, now),
    {
        match kind {
            SettingKind::ExcludeToggle(i) => {
                self.toggle_pattern(i);
                return self.rescan_here();
            },
            SettingKind::DepthAdjust => {},
            SettingKind::ToggleModified => {
                self.toggle_modified();
            },
            SettingKind::ToggleHidden => {
                self.toggle_hidden();
            },
            SettingKind::ToggleEmpty => {
                self.toggle_empty();
            },
            SettingKind::TogglePercent => {
                self.toggle_percent();
            },
            SettingKind::CycleTheme => {
                self.cycle_theme();
            },
            SettingKind::ToggleShowFiles => {
                self.toggle_files();
            },
            SettingKind::ClearFilter => {
                self.clear_filter();
            },
            SettingKind::ResetDefaults => {
                self.reset_settings();
                self.flash("Settings reset to defaults".to_owned(), now);
            },
        }
        Effect::Nothing
    }

    pub(crate) fn set_screen(&mut self, screen: Screen)
        ensures
            final(self)@ == old(self)@.on_screen(screen),
    {
        self.screen = screen;
        assert(self@ =~= old(self)@.on_screen(screen));
    }

    pub(crate) fn select_setting(&mut self, i: usize)
        ensures
            final(self)@ == old(self)@.at_setting(i as nat),
    {
        self.settings_cursor = i;
        assert(self@ =~= old(self)@.at_setting(i as nat));
    }

    /// The number of lines of the settings panel.
    pub(crate) fn settings_len(&self) -> (r: usize)
        ensures
            r == self@.setting_items().len(),
            r > 0,
    {
        let items = self.settings_items();
        assert(items@.len() == setting_views(items@).len());
        items.len()
    }

    fn select_setting_below(&mut self)
        ensures
            final(self)@ == old(self)@.setting_below(),
    {
        let n = self.settings_len();
        if self.settings_cursor < n - 1 {
            self.select_setting(self.settings_cursor + 1);
        }
    }

    pub(crate) fn enter_setting(&mut self, now: u64) -> (r: Effect)
        ensures
            (final(self)@, r@) == old(self)@.setting_entered(now),
    {
        let items = self.settings_items();
        assert(items@.len() == setting_views(items@).len());
        if self.settings_cursor < items.len() {
            let kind = items[self.settings_cursor].kind;
            assert(setting_views(items@)[self.settings_cursor as int].kind == kind);
            return self.activate_setting(kind, now);
        }
        Effect::Nothing
    }

    pub(crate) fn set_depth(&mut self, depth: usize)
        ensures
            final(self)@ == old(self)@.with_config(
                (ConfigView { depth, ..old(self)@.config }),
            ),
    {
        self.config.depth = depth;
        assert(self@ =~= old(self)@.with_config(ConfigView { depth, ..old(self)@.config }));
    }

    /// Handles a key in the settings panel. Depth is the first line of it.
    pub fn handle_settings_key(&mut self, key: KeyEvent, now: u64) -> (r: Effect)
        requires
            !old(self)@.deepens_too_far(key),
        ensures
            (final(self)@, r@) == old(self)@.settings_step(key, now),
    {
        match key.code {
            KeyCode::Esc => {
                self.set_screen(Screen::Main);
                return Effect::SaveSettings;
            },
            KeyCode::Up => {
                let i = recede(self.settings_cursor, 1);
                self.select_setting(i);
            },
            KeyCode::Down => {
                self.select_setting_below();
            },
            KeyCode::PageDown => {
                let i = advance(self.settings_cursor, 10, self.settings_len());
                self.select_setting(i);
            },
            KeyCode::PageUp => {
                let i = recede(self.settings_cursor, 10);
                self.select_setting(i);
            },
            KeyCode::Enter => {
                return self.enter_setting(now);
            },
            KeyCode::Char(ch) => {
                if ch == 'q' || ch == 'S' {
                    self.set_screen(Screen::Main);
                    return Effect::SaveSettings;
                } else if ch == 'k' {
                    let i = recede(self.settings_cursor, 1);
                    self.select_setting(i);
                } else if ch == 'j' {
                    self.select_setting_below();
                } else if (ch == '+' || ch == '=') && self.settings_cursor == 0 {
                    self.set_depth(self.config.depth + 1);
                    return self.rescan_here();
                } else if ch == '-' && self.settings_cursor == 0 && self.config.depth > 0 {
                    self.set_depth(self.config.depth - 1);
                } else if ch == ' ' {
                    return self.enter_setting(now);
                }
            },
            _ => {},
        }
        Effect::Nothing
    }
}

/// The panel has a line for each pattern, and the line of the depth is the
/// first.
pub proof fn settings_have_every_pattern(a: AppView, i: int)
    requires
        0 <= i < a.config.excludes.len(),
    ensures
        a.setting_items()[0].kind == SettingKind::DepthAdjust,
        a.setting_items().contains(pattern_line(a.config, i)),
        a.setting_items().last().kind == SettingKind::ResetDefaults,
{
    let head = a.fixed_settings() + a.filter_settings();
    let k = head.len() + i;
    assert(a.setting_items()[k] == a.pattern_settings()[i]);
}

} // verus!
