//! The interactive screens: their state, and how it changes.

use vstd::prelude::*;

use crate::cli::Mode;
use crate::config::{Config, ConfigView};
use crate::display::{
    compute_hidden_summary, hidden_summary_of, render_rows, renderable, row_views, rows_in_mode,
    RenderOptions, Row, RowView,
};
use crate::editor::{Editor, EditorView};
use crate::layout::Rect;
use crate::text::{clone_opt, text_opt, texts};
use crate::tui::newitem::{new_item_view, NewItemState, NewItemView};
use crate::tui::perms::{PermsState, PermsView};
use crate::tui::rows::{keep_rows, rows_kept};
use crate::tui::scans::{cached_views, CachedScan, CachedView};
use crate::tui::spotlight::{ReqView, SpotlightReq, SpotlightState, SpotlightView};
use crate::walker::Node;

pub mod answers;
pub mod commands;
pub mod draw;
pub mod input;
pub mod mouse;
pub mod navigate;
pub mod newitem;
pub mod overlays;
pub mod perms;
pub mod picker;
pub mod popups;
pub mod rows;
pub mod scans;
pub mod selection;
pub mod settings;
pub mod spotlight;

verus! {

/// What is in front of the rows.
#[derive(Clone, Copy, Debug, PartialEq, Eq, Structural)]
pub enum Screen {
    Main,
    Settings,
    Help,
    Warnings,
    Permissions,
    NewItem,
    Editor,
}

/// The filter over the rows.
pub struct FilterState {
    pub query: String,
    pub active: bool,
    /// Whether keys go to the filter.
    pub editing: bool,
}

impl Default for FilterState {
    fn default() -> (r: FilterState)
        ensures
            r@ == no_filter(),
    {
        let r = FilterState { query: String::new(), active: false, editing: false };
        assert(r@ =~= no_filter());
        r
    }
}

/// The mathematical form of a [`FilterState`].
#[verifier::ext_equal]
pub struct FilterView {
    pub query: Seq<char>,
    pub active: bool,
    pub editing: bool,
}

impl View for FilterState {
    type V = FilterView;

    open spec fn view(&self) -> FilterView {
        FilterView { query: self.query@, active: self.active, editing: self.editing }
    }
}

/// No filter.
pub open spec fn no_filter() -> FilterView {
    FilterView { query: Seq::empty(), active: false, editing: false }
}

/// What a click does.
#[derive(Clone, Copy, Debug, PartialEq, Eq, Structural)]
pub enum Action {
    SetMode(Mode),
    OpenHelp,
    OpenSettings,
    CloseOverlay,
    Quit,
    OpenWarnings,
    SelectRow(usize),
    DrillRow(usize),
    CycleSort,
    ToggleHidden,
    ToggleEmpty,
    TogglePercent,
    ToggleModified,
    ClearFilter,
    SettingsRow(usize),
    SettingsResetDefaults,
    SettingsClearFilter,
    /// Nothing.
    Noop,
}

/// An area that can be clicked, and what that does.
#[derive(Clone, Copy, Debug, PartialEq, Eq, Structural)]
pub struct HitRegion {
    pub rect: Rect,
    pub action: Action,
}

/// What the state machine asks the program to do.
pub enum Effect {
    Nothing,
    Quit,
    /// Scan a directory.
    Rescan { path: String },
    /// Find out whether `target` can be entered, to go there.
    GoUp { target: String, pop: bool },
    OpenEditor { path: String },
    OpenPerms { path: String },
    Yank { text: String },
    OpenExternal { path: String },
    SaveSettings,
    /// Read a directory for the path picker.
    Query(SpotlightReq),
    /// Find out whether a typed path is a directory, to go there.
    GoToTyped { path: String },
    ApplyPerms { path: String, mode: u32 },
    ApplyPermsRecursive { path: String, mode: u32 },
    SaveFile { close: bool },
    /// Make an empty file or a directory, with permissions.
    CreateItem { path: String, mode: u32, is_dir: bool },
}

/// The mathematical form of an [`Effect`].
#[verifier::ext_equal]
pub enum EffectView {
    Nothing,
    Quit,
    Rescan { path: Seq<char> },
    GoUp { target: Seq<char>, pop: bool },
    OpenEditor { path: Seq<char> },
    OpenPerms { path: Seq<char> },
    Yank { text: Seq<char> },
    OpenExternal { path: Seq<char> },
    SaveSettings,
    Query(ReqView),
    GoToTyped { path: Seq<char> },
    ApplyPerms { path: Seq<char>, mode: u32 },
    ApplyPermsRecursive { path: Seq<char>, mode: u32 },
    SaveFile { close: bool },
    CreateItem { path: Seq<char>, mode: u32, is_dir: bool },
}

impl View for Effect {
    type V = EffectView;

    open spec fn view(&self) -> EffectView {
        match *self {
            Effect::Nothing => EffectView::Nothing,
            Effect::Quit => EffectView::Quit,
            Effect::Rescan { path } => EffectView::Rescan { path: path@ },
            Effect::GoUp { target, pop } => EffectView::GoUp { target: target@, pop },
            Effect::OpenEditor { path } => EffectView::OpenEditor { path: path@ },
            Effect::OpenPerms { path } => EffectView::OpenPerms { path: path@ },
            Effect::Yank { text } => EffectView::Yank { text: text@ },
            Effect::OpenExternal { path } => EffectView::OpenExternal { path: path@ },
            Effect::SaveSettings => EffectView::SaveSettings,
            Effect::Query(req) => EffectView::Query(req@),
            Effect::GoToTyped { path } => EffectView::GoToTyped { path: path@ },
            Effect::ApplyPerms { path, mode } => EffectView::ApplyPerms { path: path@, mode },
            Effect::ApplyPermsRecursive { path, mode } => EffectView::ApplyPermsRecursive {
                path: path@,
                mode,
            },
            Effect::SaveFile { close } => EffectView::SaveFile { close },
            Effect::CreateItem { path, mode, is_dir } => EffectView::CreateItem {
                path: path@,
                mode,
                is_dir,
            },
        }
    }
}

/// What the state machine needs to know of the world: the time in nanoseconds,
/// the home directory, and whether permissions may be changed.
pub struct Env {
    pub now: u64,
    pub home: Option<String>,
    pub root: bool,
}

impl Env {
    /// The home directory.
    pub open spec fn home_text(self) -> Option<Seq<char>> {
        text_opt(self.home)
    }

    /// The home directory.
    pub(crate) fn home_str(&self) -> (r: Option<&str>)
        ensures
            crate::tui::spotlight::opt_text(r) == self.home_text(),
    {
        match &self.home {
            Some(h) => Some(h.as_str()),
            None => None,
        }
    }
}

pub struct App {
    pub root: Node,
    pub initial_path: String,
    pub cursor: usize,
    pub scroll: usize,
    pub config: Config,
    pub min_size: u64,
    pub screen: Screen,
    pub settings_cursor: usize,
    pub settings_scroll: usize,
    pub nav_stack: Vec<String>,
    /// A message, and when it was given, in nanoseconds.
    pub status_msg: Option<(String, u64)>,
    pub last_size: (u16, u16),
    pub rescanning: bool,
    pub warnings: Vec<String>,
    pub warnings_scroll: usize,
    pub filter: FilterState,
    /// What can be clicked in the last frame.
    pub hits: Vec<HitRegion>,
    /// Where the rows are in the last frame.
    pub body_rect: Rect,
    pub body_scroll: usize,
    pub body_visible_rows: usize,
    /// When and where the mouse was last clicked.
    pub last_click: Option<(u64, u16, u16)>,
    /// Patterns that are excluded for this session.
    pub session_excludes: Vec<String>,
    pub spotlight: Option<SpotlightState>,
    pub perms: Option<PermsState>,
    pub new_item: Option<NewItemState>,
    pub editor: Option<Editor>,
    pub should_quit: bool,
    /// When the tree that is shown was scanned, in nanoseconds; nothing where it
    /// is not to be shown again.
    pub root_at: Option<u64>,
    /// What is being scanned.
    pub scan_target: Option<String>,
    /// Other trees that were scanned.
    pub scan_cache: Vec<CachedScan>,
}

/// The mathematical form of an [`App`].
#[verifier::ext_equal]
pub struct AppView {
    pub root: Node,
    pub initial_path: Seq<char>,
    pub cursor: nat,
    pub scroll: nat,
    pub config: ConfigView,
    pub min_size: u64,
    pub screen: Screen,
    pub settings_cursor: nat,
    pub settings_scroll: nat,
    pub nav_stack: Seq<Seq<char>>,
    pub status_msg: Option<(Seq<char>, u64)>,
    pub last_size: (u16, u16),
    pub rescanning: bool,
    pub warnings: Seq<Seq<char>>,
    pub warnings_scroll: nat,
    pub filter: FilterView,
    pub hits: Seq<HitRegion>,
    pub body_rect: Rect,
    pub body_scroll: nat,
    pub body_visible_rows: nat,
    pub last_click: Option<(u64, u16, u16)>,
    pub session_excludes: Seq<Seq<char>>,
    pub spotlight: Option<SpotlightView>,
    pub perms: Option<PermsView>,
    pub new_item: Option<NewItemView>,
    pub editor: Option<EditorView>,
    pub should_quit: bool,
    pub root_at: Option<u64>,
    pub scan_target: Option<Seq<char>>,
    pub scan_cache: Seq<CachedView>,
}

pub open spec fn status_view(s: Option<(String, u64)>) -> Option<(Seq<char>, u64)> {
    match s {
        Some(p) => Some((p.0@, p.1)),
        None => None,
    }
}

pub open spec fn spotlight_view(s: Option<SpotlightState>) -> Option<SpotlightView> {
    match s {
        Some(t) => Some(t@),
        None => None,
    }
}

pub open spec fn perms_view(s: Option<PermsState>) -> Option<PermsView> {
    match s {
        Some(t) => Some(t@),
        None => None,
    }
}

pub open spec fn editor_view(s: Option<Editor>) -> Option<EditorView> {
    match s {
        Some(t) => Some(t@),
        None => None,
    }
}

impl View for App {
    type V = AppView;

    open spec fn view(&self) -> AppView {
        AppView {
            root: self.root,
            initial_path: self.initial_path@,
            cursor: self.cursor as nat,
            scroll: self.scroll as nat,
            config: self.config@,
            min_size: self.min_size,
            screen: self.screen,
            settings_cursor: self.settings_cursor as nat,
            settings_scroll: self.settings_scroll as nat,
            nav_stack: texts(self.nav_stack@),
            status_msg: status_view(self.status_msg),
            last_size: self.last_size,
            rescanning: self.rescanning,
            warnings: texts(self.warnings@),
            warnings_scroll: self.warnings_scroll as nat,
            filter: self.filter@,
            hits: self.hits@,
            body_rect: self.body_rect,
            body_scroll: self.body_scroll as nat,
            body_visible_rows: self.body_visible_rows as nat,
            last_click: self.last_click,
            session_excludes: texts(self.session_excludes@),
            spotlight: spotlight_view(self.spotlight),
            perms: perms_view(self.perms),
            new_item: new_item_view(self.new_item),
            editor: editor_view(self.editor),
            should_quit: self.should_quit,
            root_at: self.root_at,
            scan_target: text_opt(self.scan_target),
            scan_cache: cached_views(self.scan_cache@),
        }
    }
}

/// The state of a first frame.
pub open spec fn new_app(
    root: Node,
    initial_path: Seq<char>,
    config: ConfigView,
    min_size: u64,
    warnings: Seq<Seq<char>>,
) -> AppView {
    AppView {
        root,
        initial_path,
        cursor: 0,
        scroll: 0,
        config,
        min_size,
        screen: Screen::Main,
        settings_cursor: 0,
        settings_scroll: 0,
        nav_stack: Seq::empty(),
        status_msg: None,
        last_size: (80, 24),
        rescanning: false,
        warnings,
        warnings_scroll: 0,
        filter: no_filter(),
        hits: Seq::empty(),
        body_rect: Rect { x: 0, y: 0, width: 0, height: 0 },
        body_scroll: 0,
        body_visible_rows: 0,
        last_click: None,
        session_excludes: Seq::empty(),
        spotlight: None,
        perms: None,
        new_item: None,
        editor: None,
        should_quit: false,
        root_at: None,
        scan_target: None,
        scan_cache: Seq::empty(),
    }
}

impl AppView {
    /// The editor, the picker and the permissions are well-formed where they
    /// are open.
    pub open spec fn wf(self) -> bool {
        &&& self.editor is Some ==> self.editor->0.wf()
        &&& self.spotlight is Some ==> self.spotlight->0.wf()
        &&& self.perms is Some ==> self.perms->0.wf()
    }

    /// With a message.
    pub open spec fn flashed(self, text: Seq<char>, now: u64) -> AppView {
        AppView { status_msg: Some((text, now)), ..self }
    }

    pub open spec fn with_config(self, config: ConfigView) -> AppView {
        AppView { config, ..self }
    }

    pub open spec fn on_screen(self, screen: Screen) -> AppView {
        AppView { screen, ..self }
    }

    pub open spec fn at_row(self, cursor: nat) -> AppView {
        AppView { cursor, ..self }
    }

    /// How the rows are rendered.
    pub open spec fn render_opts(self) -> RenderOptions {
        RenderOptions {
            theme: self.config.theme,
            depth: self.config.depth,
            min_size: self.min_size,
            sort: self.config.sort,
            sort_order: self.config.sort_order,
            show_files: self.config.show_files,
            show_modified: self.config.view.show_modified || self.config.show_modified,
            width: self.last_size.0,
            height: if self.last_size.1 < 13 {
                8
            } else {
                (self.last_size.1 - 5) as u16
            },
            hidden_summary: hidden_summary_of(self.root, self.config.view.show_hidden),
        }
    }

    /// Whether the tree can be rendered in the current mode.
    pub open spec fn rows_ready(self) -> bool {
        renderable(self.root, self.render_opts(), self.config.mode)
    }

    /// The text that names have to hold.
    pub open spec fn query(self) -> Option<Seq<char>> {
        if self.filter.active && self.filter.query.len() > 0 {
            Some(self.filter.query)
        } else {
            None
        }
    }

    /// The rows that are shown.
    pub open spec fn rows(self) -> Seq<RowView> {
        rows_kept(
            rows_in_mode(self.root, self.render_opts(), self.config.mode),
            self.root.path@,
            self.config.view,
            self.query(),
        )
    }

    /// The entry under the cursor.
    pub open spec fn selected_path(self) -> Option<Seq<char>> {
        if self.cursor < self.rows().len() && !self.rows()[self.cursor as int].is_hidden_summary {
            self.rows()[self.cursor as int].path
        } else {
            None
        }
    }
}

impl App {
    pub fn new(
        root: Node,
        initial_path: String,
        config: Config,
        min_size: u64,
        warnings: Vec<String>,
    ) -> (r: App)
        ensures
            r@ == new_app(root, initial_path@, config@, min_size, texts(warnings@)),
            r@.wf(),
    {
        let r = App {
            root,
            initial_path,
            cursor: 0,
            scroll: 0,
            config,
            min_size,
            screen: Screen::Main,
            settings_cursor: 0,
            settings_scroll: 0,
            nav_stack: Vec::new(),
            status_msg: None,
            last_size: (80, 24),
            rescanning: false,
            warnings,
            warnings_scroll: 0,
            filter: FilterState::default(),
            hits: Vec::new(),
            body_rect: Rect { x: 0, y: 0, width: 0, height: 0 },
            body_scroll: 0,
            body_visible_rows: 0,
            last_click: None,
            session_excludes: Vec::new(),
            spotlight: None,
            perms: None,
            new_item: None,
            editor: None,
            should_quit: false,
            root_at: None,
            scan_target: None,
            scan_cache: Vec::new(),
        };
        assert(texts(r.nav_stack@) =~= Seq::<Seq<char>>::empty());
        assert(texts(r.session_excludes@) =~= Seq::<Seq<char>>::empty());
        assert(cached_views(r.scan_cache@) =~= Seq::<CachedView>::empty());
        assert(r@ =~= new_app(root, initial_path@, config@, min_size, texts(warnings@)));
        r
    }

    /// Tells the state machine how large the screen is.
    pub fn report_size(&mut self, width: u16, height: u16)
        ensures
            final(self)@ == (AppView { last_size: (width, height), ..old(self)@ }),
    {
        self.last_size = (width, height);
        assert(self@ =~= (AppView { last_size: (width, height), ..old(self)@ }));
    }

    /// Shows a message.
    pub fn flash(&mut self, text: String, now: u64)
        ensures
            final(self)@ == old(self)@.flashed(text@, now),
    {
        self.status_msg = Some((text, now));
        assert(self@ =~= old(self)@.flashed(text@, now));
    }

    /// How the rows are rendered.
    pub fn render_opts(&self) -> (r: RenderOptions)
        ensures
            r == self@.render_opts(),
    {
        let height: u16 = if self.last_size.1 < 13 {
            8
        } else {
            self.last_size.1 - 5
        };
        RenderOptions {
            theme: self.config.theme,
            depth: self.config.depth,
            min_size: self.min_size,
            sort: self.config.sort,
            sort_order: self.config.sort_order,
            show_files: self.config.show_files,
            show_modified: self.config.view.show_modified || self.config.show_modified,
            width: self.last_size.0,
            height,
            hidden_summary: compute_hidden_summary(&self.root, self.config.view.show_hidden),
        }
    }

    /// The rows that are shown.
    pub fn build_rows(&self) -> (r: Vec<Row>)
        requires
            self@.rows_ready(),
        ensures
            row_views(r@) == self@.rows(),
    {
        let opts = self.render_opts();
        let raw = render_rows(&self.root, &opts, self.config.mode);
        let query: Option<&str> = if self.filter.active && self.filter.query.as_str().unicode_len()
            > 0 {
            Some(self.filter.query.as_str())
        } else {
            None
        };
        keep_rows(raw, &self.root.path, self.config.view, query)
    }

    /// Whether the tree can be rendered in the current mode.
    pub fn can_build_rows(&self) -> (r: bool)
        ensures
            r == self@.rows_ready(),
    {
        let opts = self.render_opts();
        crate::display::can_render(&self.root, &opts, self.config.mode)
    }

    /// The entry under the cursor.
    pub fn selected_row_path(&self) -> (r: Option<String>)
        requires
            self@.rows_ready(),
        ensures
            text_opt(r) == self@.selected_path(),
    {
        let rows = self.build_rows();
        assert(rows@.len() == row_views(rows@).len());
        if self.cursor < rows.len() {
            let r = &rows[self.cursor];
            assert(r@ == self@.rows()[self.cursor as int]);
            if r.is_hidden_summary {
                return None;
            }
            return clone_opt(&r.path);
        }
        None
    }
}

} // verus!
