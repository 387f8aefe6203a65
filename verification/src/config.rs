//! Settings that persist between runs.

use vstd::prelude::*;

use crate::cli::{Cli, Mode, SortBy, SortOrder};
use crate::paths::{join, joined, parent, parent_of};
use crate::text::{clone_texts, holds_text, starts_with, starts_with_char, text_opt, texts};
use crate::walker::{vfs_excludes, vfs_texts};

verus! {

#[derive(Debug, Clone, Copy, PartialEq, Eq, Structural)]
pub enum Theme {
    Default,
    HighContrast,
    Monochrome,
}

impl Default for Theme {
    fn default() -> (r: Theme)
        ensures
            r == Theme::Default,
    {
        Theme::Default
    }
}

/// What the rows show.
#[derive(Debug, Clone, Copy, PartialEq, Eq, Structural)]
pub struct ViewOptions {
    pub show_hidden: bool,
    pub show_empty: bool,
    pub show_percent: bool,
    pub show_modified: bool,
}

/// What the rows show unless told otherwise.
pub open spec fn default_view() -> ViewOptions {
    ViewOptions { show_hidden: true, show_empty: false, show_percent: true, show_modified: true }
}

impl Default for ViewOptions {
    fn default() -> (r: ViewOptions)
        ensures
            r == default_view(),
    {
        ViewOptions {
            show_hidden: true,
            show_empty: false,
            show_percent: true,
            show_modified: true,
        }
    }
}

pub struct Config {
    pub theme: Theme,
    pub depth: usize,
    pub show_files: bool,
    pub show_modified: bool,
    pub excludes: Vec<String>,
    pub sort: SortBy,
    pub sort_order: SortOrder,
    pub mode: Mode,
    /// Whether each pattern of `excludes` is in force.
    pub excludes_enabled: Vec<bool>,
    pub view: ViewOptions,
}

/// The mathematical form of a [`Config`].
#[verifier::ext_equal]
pub struct ConfigView {
    pub theme: Theme,
    pub depth: usize,
    pub show_files: bool,
    pub show_modified: bool,
    pub excludes: Seq<Seq<char>>,
    pub sort: SortBy,
    pub sort_order: SortOrder,
    pub mode: Mode,
    pub excludes_enabled: Seq<bool>,
    pub view: ViewOptions,
}

impl View for Config {
    type V = ConfigView;

    open spec fn view(&self) -> ConfigView {
        ConfigView {
            theme: self.theme,
            depth: self.depth,
            show_files: self.show_files,
            show_modified: self.show_modified,
            excludes: texts(self.excludes@),
            sort: self.sort,
            sort_order: self.sort_order,
            mode: self.mode,
            excludes_enabled: self.excludes_enabled@,
            view: self.view,
        }
    }
}

/// The patterns that are excluded unless told otherwise: build products and
/// the virtual filesystems.
pub open spec fn default_exclude_texts() -> Seq<Seq<char>> {
    seq!["target"@, ".git"@, "node_modules"@, ".DS_Store"@] + vfs_texts()
}

/// A sequence of `n` times true.
pub open spec fn all_true(n: nat) -> Seq<bool> {
    Seq::new(n, |i: int| true)
}

/// The settings of a first run.
pub open spec fn default_config() -> ConfigView {
    ConfigView {
        theme: Theme::Default,
        depth: 1,
        show_files: false,
        show_modified: false,
        excludes: default_exclude_texts(),
        sort: SortBy::Size,
        sort_order: SortOrder::Desc,
        mode: Mode::Tree,
        excludes_enabled: all_true(default_exclude_texts().len()),
        view: default_view(),
    }
}

impl ConfigView {
    /// Every pattern has its flag.
    pub open spec fn parallel(self) -> bool {
        self.excludes.len() == self.excludes_enabled.len()
    }

    /// With one more pattern in force, unless it is there already.
    pub open spec fn with_pattern(self, p: Seq<char>) -> ConfigView {
        if self.excludes.contains(p) {
            self
        } else {
            ConfigView {
                excludes: self.excludes.push(p),
                excludes_enabled: self.excludes_enabled.push(true),
                ..self
            }
        }
    }

    /// With each of `ps` that is missing, in order.
    pub open spec fn with_patterns(self, ps: Seq<Seq<char>>) -> ConfigView
        decreases ps.len(),
    {
        if ps.len() == 0 {
            self
        } else {
            self.with_patterns(ps.drop_last()).with_pattern(ps.last())
        }
    }

    /// With every flag set where their number does not fit the patterns.
    pub open spec fn with_matching_flags(self) -> ConfigView {
        if self.parallel() {
            self
        } else {
            ConfigView { excludes_enabled: all_true(self.excludes.len()), ..self }
        }
    }

    /// With flags for all patterns and with the virtual filesystems excluded.
    pub open spec fn healed(self) -> ConfigView {
        self.with_matching_flags().with_patterns(
            default_exclude_texts().filter(|p: Seq<char>| starts_with(p, '/')),
        )
    }

    /// The patterns in force, of the first `n`.
    pub open spec fn active_upto(self, n: nat) -> Seq<Seq<char>>
        decreases n,
    {
        if n == 0 {
            Seq::empty()
        } else if self.excludes_enabled[n - 1] {
            self.active_upto((n - 1) as nat).push(self.excludes[n - 1])
        } else {
            self.active_upto((n - 1) as nat)
        }
    }

    /// The patterns in force. A pattern without a flag is not in force.
    pub open spec fn active(self) -> Seq<Seq<char>> {
        self.active_upto(
            if self.excludes.len() <= self.excludes_enabled.len() {
                self.excludes.len()
            } else {
                self.excludes_enabled.len()
            },
        )
    }

    /// With the options that the command line sets. Sorting by name is
    /// ascending.
    pub open spec fn with_options(self, cli: Cli) -> ConfigView {
        ConfigView {
            depth: match cli.depth {
                Some(d) => d,
                None => self.depth,
            },
            sort: match cli.sort {
                Some(s) => s,
                None => self.sort,
            },
            sort_order: if cli.sort == Some(SortBy::Name) {
                SortOrder::Asc
            } else {
                self.sort_order
            },
            mode: match cli.mode {
                Some(m) => m,
                None => self.mode,
            },
            show_files: self.show_files || cli.show_files,
            show_modified: self.show_modified || cli.modified,
            ..self
        }
    }

    /// What the command line makes of the settings.
    pub open spec fn overridden(self, cli: Cli) -> ConfigView {
        self.with_options(cli).with_patterns(texts(cli.exclude@))
    }
}

/// The patterns that are excluded unless told otherwise.
pub fn default_excludes() -> (r: Vec<String>)
    ensures
        texts(r@) == default_exclude_texts(),
{
    let mut v: Vec<String> = Vec::new();
    v.push("target".to_owned());
    v.push(".git".to_owned());
    v.push("node_modules".to_owned());
    v.push(".DS_Store".to_owned());
    let vfs = vfs_excludes();
    let ghost start = v@;
    assert(texts(start) =~= seq!["target"@, ".git"@, "node_modules"@, ".DS_Store"@]);
    let mut i: usize = 0;
    while i < vfs.len()
        invariant
            i <= vfs@.len(),
            vfs@.map_values(|s: &'static str| s@) == vfs_texts(),
            texts(v@) == texts(start) + vfs_texts().take(i as int),
        decreases vfs@.len() - i,
    {
        let p = vfs[i].to_owned();
        assert(p@ == vfs_texts()[i as int]);
        let ghost before = texts(v@);
        v.push(p);
        assert(texts(v@) =~= before.push(p@));
        i = i + 1;
        assert(vfs_texts().take(i as int) =~= vfs_texts().take(i - 1).push(p@));
    }
    assert(vfs_texts().take(i as int) =~= vfs_texts());
    v
}

/// Where the settings are kept below a home directory.
pub open spec fn config_file(home: Seq<char>) -> Seq<char> {
    joined(joined(joined(home, ".config"@), "diskvis"@), "config.toml"@)
}

/// Where the settings are kept; nowhere without a home directory.
pub fn config_path(home: Option<&str>) -> (r: Option<String>)
    ensures
        text_opt(r) == (match home {
            Some(h) => Some(config_file(h@)),
            None => None,
        }),
{
    match home {
        Some(h) => {
            let a = join(h, ".config");
            let b = join(&a, "diskvis");
            Some(join(&b, "config.toml"))
        },
        None => None,
    }
}

/// What has to be there before the settings are written, and where they go.
pub struct SaveTarget {
    pub dir: Option<String>,
    pub file: String,
}

/// Where the settings are written. Without a home directory they are not.
pub fn save_target(home: Option<&str>) -> (r: Option<SaveTarget>)
    ensures
        match home {
            Some(h) => r is Some && r->0.file@ == config_file(h@) && text_opt(r->0.dir)
                == parent_of(config_file(h@)),
            None => r is None,
        },
{
    match config_path(home) {
        Some(file) => {
            let dir = parent(&file);
            Some(SaveTarget { dir, file })
        },
        None => None,
    }
}

fn flags(n: usize) -> (r: Vec<bool>)
    ensures
        r@ == all_true(n as nat),
{
    let mut v: Vec<bool> = Vec::new();
    let mut i: usize = 0;
    while i < n
        invariant
            i <= n,
            v@ == all_true(i as nat),
        decreases n - i,
    {
        v.push(true);
        i = i + 1;
        assert(v@ =~= all_true(i as nat));
    }
    v
}

impl Default for Config {
    fn default() -> (r: Config)
        ensures
            r@ == default_config(),
    {
        let excludes = default_excludes();
        let n: usize = excludes.len();
        assert(n == texts(excludes@).len());
        let excludes_enabled = flags(n);
        Config {
            theme: Theme::Default,
            depth: 1,
            show_files: false,
            show_modified: false,
            excludes,
            sort: SortBy::Size,
            sort_order: SortOrder::Desc,
            mode: Mode::Tree,
            excludes_enabled,
            view: ViewOptions::default(),
        }
    }
}

impl Config {
    /// The settings of a run: those that were read, healed, or those of a
    /// first run where none could be read.
    pub fn load(parsed: Option<Config>) -> (r: Config)
        ensures
            r@ == (match parsed {
                Some(c) => c@.healed(),
                None => default_config(),
            }),
    {
        match parsed {
            Some(c) => {
                let mut cfg = c;
                cfg.heal();
                cfg
            },
            None => Config::default(),
        }
    }

    /// Adds a pattern, in force, unless it is there already.
    pub fn add_pattern(&mut self, p: String)
        ensures
            final(self)@ == old(self)@.with_pattern(p@),
    {
        let ghost before = self@;
        if !holds_text(&self.excludes, &p) {
            self.excludes.push(p);
            self.excludes_enabled.push(true);
            assert(texts(self.excludes@) =~= before.excludes.push(p@));
            assert(self@ =~= before.with_pattern(p@));
        }
    }

    /// Makes sure that every pattern has its flag, and that the virtual
    /// filesystems are among the patterns.
    pub fn heal(&mut self)
        ensures
            final(self)@ == old(self)@.healed(),
    {
        if self.excludes_enabled.len() != self.excludes.len() {
            self.excludes_enabled = flags(self.excludes.len());
        }
        assert(self@ =~= old(self)@.with_matching_flags());
        let required = default_excludes();
        let ghost base = self@;
        let ghost all = default_exclude_texts();
        let ghost pred = |p: Seq<char>| starts_with(p, '/');
        let mut i: usize = 0;
        assert(all.take(0).filter(pred) =~= Seq::<Seq<char>>::empty()) by {
            reveal(Seq::filter);
        }
        while i < required.len()
            invariant
                i <= required@.len(),
                texts(required@) == all,
                pred == (|p: Seq<char>| starts_with(p, '/')),
                self@ == base.with_patterns(all.take(i as int).filter(pred)),
            decreases required@.len() - i,
        {
            let ghost done = all.take(i as int).filter(pred);
            let ghost p = required@[i as int]@;
            assert(p == all[i as int]);
            assert(all.take(i + 1).drop_last() =~= all.take(i as int));
            assert(all.take(i + 1).filter(pred) == (if pred(p) {
                done.push(p)
            } else {
                done
            })) by {
                reveal(Seq::filter);
            }
            if starts_with_char(&required[i], '/') {
                assert(done.push(p).drop_last() =~= done);
                self.add_pattern(required[i].clone());
            }
            i = i + 1;
        }
        assert(all.take(i as int) =~= all);
    }

    /// The patterns in force.
    pub fn active_excludes(&self) -> (r: Vec<String>)
        ensures
            texts(r@) == self@.active(),
    {
        let n: usize = if self.excludes.len() <= self.excludes_enabled.len() {
            self.excludes.len()
        } else {
            self.excludes_enabled.len()
        };
        let mut out: Vec<String> = Vec::new();
        assert(texts(out@) =~= Seq::<Seq<char>>::empty());
        let mut i: usize = 0;
        while i < n
            invariant
                i <= n,
                n <= self.excludes@.len(),
                n <= self.excludes_enabled@.len(),
                texts(out@) == self@.active_upto(i as nat),
            decreases n - i,
        {
            if self.excludes_enabled[i] {
                let ghost before = texts(out@);
                out.push(self.excludes[i].clone());
                assert(texts(out@) =~= before.push(self@.excludes[i as int]));
            }
            i = i + 1;
        }
        out
    }

    fn set_options(&mut self, cli: &Cli)
        ensures
            final(self)@ == old(self)@.with_options(*cli),
    {
        if let Some(d) = cli.depth {
            self.depth = d;
        }
        if let Some(s) = cli.sort {
            self.sort = s;
            if s == SortBy::Name {
                self.sort_order = SortOrder::Asc;
            }
        }
        if let Some(m) = cli.mode {
            self.mode = m;
        }
        if cli.show_files {
            self.show_files = true;
        }
        if cli.modified {
            self.show_modified = true;
        }
    }

    /// Lets the command line override the settings.
    pub fn apply_cli(&mut self, cli: &Cli)
        ensures
            final(self)@ == old(self)@.overridden(*cli),
    {
        self.set_options(cli);
        let ghost base = self@;
        let ghost pats = texts(cli.exclude@);
        let mut i: usize = 0;
        assert(pats.take(0) =~= Seq::<Seq<char>>::empty());
        while i < cli.exclude.len()
            invariant
                i <= cli.exclude@.len(),
                pats == texts(cli.exclude@),
                self@ == base.with_patterns(pats.take(i as int)),
            decreases cli.exclude@.len() - i,
        {
            assert(pats.take(i + 1).drop_last() =~= pats.take(i as int));
            assert(pats.take(i + 1).last() == cli.exclude@[i as int]@);
            self.add_pattern(cli.exclude[i].clone());
            i = i + 1;
        }
        assert(pats.take(i as int) =~= pats);
    }

    /// A copy.
    pub fn copy(&self) -> (r: Config)
        ensures
            r@ == self@,
    {
        let excludes_enabled = self.excludes_enabled.clone();
        assert(excludes_enabled@ =~= self.excludes_enabled@);
        Config {
            theme: self.theme,
            depth: self.depth,
            show_files: self.show_files,
            show_modified: self.show_modified,
            excludes: clone_texts(&self.excludes),
            sort: self.sort,
            sort_order: self.sort_order,
            mode: self.mode,
            excludes_enabled,
            view: self.view,
        }
    }
}

/// Adding patterns keeps those that are there, keeps every pattern's flag, adds
/// what was asked for, and changes no other setting.
pub proof fn adding_patterns_keeps_settings(c: ConfigView, ps: Seq<Seq<char>>)
    ensures
        c.with_patterns(ps) == (ConfigView {
            excludes: c.with_patterns(ps).excludes,
            excludes_enabled: c.with_patterns(ps).excludes_enabled,
            ..c
        }),
        c.parallel() ==> c.with_patterns(ps).parallel(),
        c.excludes.len() <= c.with_patterns(ps).excludes.len(),
        c.with_patterns(ps).excludes.take(c.excludes.len() as int) == c.excludes,
        c.excludes_enabled.len() <= c.with_patterns(ps).excludes_enabled.len(),
        c.with_patterns(ps).excludes_enabled.take(c.excludes_enabled.len() as int)
            == c.excludes_enabled,
        forall|i: int|
            0 <= i < ps.len() ==> #[trigger] c.with_patterns(ps).excludes.contains(ps[i]),
    decreases ps.len(),
{
    let r = c.with_patterns(ps);
    if ps.len() == 0 {
        assert(c.excludes.take(c.excludes.len() as int) =~= c.excludes);
        assert(c.excludes_enabled.take(c.excludes_enabled.len() as int) =~= c.excludes_enabled);
    } else {
        let q = c.with_patterns(ps.drop_last());
        let p = ps.last();
        adding_patterns_keeps_settings(c, ps.drop_last());
        if !q.excludes.contains(p) {
            assert(r.excludes[q.excludes.len() as int] == p);
            assert(r.excludes.take(c.excludes.len() as int) =~= q.excludes.take(
                c.excludes.len() as int,
            ));
            assert(r.excludes_enabled.take(c.excludes_enabled.len() as int)
                =~= q.excludes_enabled.take(c.excludes_enabled.len() as int));
        }
        assert forall|i: int| 0 <= i < ps.len() implies #[trigger] r.excludes.contains(ps[i]) by {
            if i < ps.len() - 1 {
                assert(ps.drop_last()[i] == ps[i]);
                assert(q.excludes.contains(ps.drop_last()[i]));
                let j = choose|j: int| 0 <= j < q.excludes.len() && q.excludes[j] == ps[i];
                assert(r.excludes[j] == ps[i]);
            }
        }
    }
}

/// Where all patterns are there already, adding them changes nothing.
proof fn lemma_nothing_to_add(c: ConfigView, ps: Seq<Seq<char>>)
    requires
        forall|i: int| 0 <= i < ps.len() ==> c.excludes.contains(#[trigger] ps[i]),
    ensures
        c.with_patterns(ps) == c,
    decreases ps.len(),
{
    if ps.len() > 0 {
        assert forall|i: int| 0 <= i < ps.drop_last().len() implies c.excludes.contains(
            #[trigger] ps.drop_last()[i],
        ) by {
            assert(ps.drop_last()[i] == ps[i]);
        }
        lemma_nothing_to_add(c, ps.drop_last());
        assert(c.excludes.contains(ps[ps.len() - 1]));
    }
}

/// Healed settings have a flag for every pattern, hold every pattern they held
/// before and the virtual filesystems, and are not changed by healing again.
pub proof fn healing_settles(c: ConfigView)
    ensures
        c.healed().parallel(),
        c.healed().excludes.len() >= c.excludes.len(),
        c.healed().excludes.take(c.excludes.len() as int) == c.excludes,
        forall|p: Seq<char>|
            default_exclude_texts().contains(p) && starts_with(p, '/')
                ==> #[trigger] c.healed().excludes.contains(p),
        c.healed().healed() == c.healed(),
{
    let pred = |p: Seq<char>| starts_with(p, '/');
    let req = default_exclude_texts().filter(pred);
    let base = c.with_matching_flags();
    adding_patterns_keeps_settings(base, req);
    let h = c.healed();
    assert forall|p: Seq<char>|
        default_exclude_texts().contains(p) && starts_with(p, '/') implies
        #[trigger] h.excludes.contains(p) by {
        let k = choose|k: int|
            0 <= k < default_exclude_texts().len() && default_exclude_texts()[k] == p;
        broadcast use vstd::seq_lib::group_filter_ensures;
        assert(req.contains(default_exclude_texts()[k]));
        let i = choose|i: int| 0 <= i < req.len() && req[i] == p;
        assert(base.with_patterns(req).excludes.contains(req[i]));
    }
    assert forall|i: int| 0 <= i < req.len() implies h.excludes.contains(#[trigger] req[i]) by {
        assert(base.with_patterns(req).excludes.contains(req[i]));
    }
    lemma_nothing_to_add(h, req);
}

/// A pattern is in force exactly where its flag is set.
pub proof fn active_patterns_are_enabled(c: ConfigView, p: Seq<char>)
    requires
        c.parallel(),
    ensures
        c.active().contains(p) <==> exists|i: int|
            0 <= i < c.excludes.len() && c.excludes[i] == p && #[trigger] c.excludes_enabled[i],
{
    lemma_active_upto(c, c.excludes.len(), p);
}

proof fn lemma_active_upto(c: ConfigView, n: nat, p: Seq<char>)
    requires
        n <= c.excludes.len(),
        n <= c.excludes_enabled.len(),
    ensures
        c.active_upto(n).contains(p) <==> exists|i: int|
            0 <= i < n && c.excludes[i] == p && #[trigger] c.excludes_enabled[i],
    decreases n,
{
    if n > 0 {
        let m = (n - 1) as nat;
        lemma_active_upto(c, m, p);
        let a = c.active_upto(m);
        let b = c.active_upto(n);
        if c.excludes_enabled[n - 1] {
            assert(b.last() == c.excludes[n - 1]);
            assert(b.drop_last() =~= a);
            if a.contains(p) {
                let k = choose|k: int| 0 <= k < a.len() && a[k] == p;
                assert(b[k] == p);
            }
            if b.contains(p) {
                let k = choose|k: int| 0 <= k < b.len() && b[k] == p;
                if k < a.len() {
                    assert(a[k] == p);
                } else {
                    assert(c.excludes_enabled[n - 1]);
                }
            }
            if c.excludes[n - 1] == p {
                assert(b[b.len() - 1] == p);
            }
        }
    }
}

/// What the command line says wins; what it does not say stays as it was. Sorting by name
/// that is asked for starts with the first name.
pub proof fn command_line_wins(c: ConfigView, cli: Cli)
    ensures
        ({
            let r = c.overridden(cli);
            &&& r.depth == (if cli.depth is Some {
                cli.depth->0
            } else {
                c.depth
            })
            &&& cli.sort matches Some(s) ==> r.sort == s
            &&& cli.sort is None ==> r.sort == c.sort && r.sort_order == c.sort_order
            &&& cli.sort == Some(SortBy::Name) ==> r.sort_order == SortOrder::Asc
            &&& cli.sort == Some(SortBy::Size) ==> r.sort_order == c.sort_order
            &&& cli.mode matches Some(m) ==> r.mode == m
            &&& cli.mode is None ==> r.mode == c.mode
            &&& r.show_files <==> c.show_files || cli.show_files
            &&& r.show_modified <==> c.show_modified || cli.modified
            &&& r.theme == c.theme
            &&& r.view == c.view
            &&& forall|i: int| 0 <= i < cli.exclude@.len() ==> r.excludes.contains(
                #[trigger] cli.exclude@[i]@,
            )
            &&& c.excludes.is_prefix_of(r.excludes)
            &&& c.excludes_enabled.is_prefix_of(r.excludes_enabled)
        }),
{
    let d = c.with_options(cli);
    let ps = texts(cli.exclude@);
    adding_patterns_keeps_settings(d, ps);
    let r = c.overridden(cli);
    assert forall|i: int| 0 <= i < cli.exclude@.len() implies r.excludes.contains(
        #[trigger] cli.exclude@[i]@,
    ) by {
        assert(ps[i] == cli.exclude@[i]@);
        assert(d.with_patterns(ps).excludes.contains(ps[i]));
    }
    assert forall|i: int| 0 <= i < c.excludes.len() implies #[trigger] r.excludes[i]
        == c.excludes[i] by {
        assert(r.excludes.take(c.excludes.len() as int)[i] == r.excludes[i]);
    }
    assert(c.excludes.is_prefix_of(r.excludes)) by {
        assert(c.excludes =~= r.excludes.subrange(0, c.excludes.len() as int));
    }
    let n = c.excludes_enabled.len() as int;
    assert(c.excludes_enabled.is_prefix_of(r.excludes_enabled)) by {
        assert(r.excludes_enabled.take(n) =~= r.excludes_enabled.subrange(0, n));
    }
}

/// A pattern that is added is in force, and none is there twice that was not before; no
/// other pattern is added.
pub proof fn added_patterns_are_in_force(c: ConfigView, ps: Seq<Seq<char>>)
    requires
        c.parallel(),
    ensures
        ({
            let r = c.with_patterns(ps);
            &&& forall|i: int|
                c.excludes.len() <= i < r.excludes.len() ==> #[trigger] r.excludes_enabled[i]
            &&& forall|i: int|
                c.excludes.len() <= i < r.excludes.len() ==> ps.contains(#[trigger] r.excludes[i])
            &&& forall|i: int, j: int|
                0 <= i < j < r.excludes.len() && c.excludes.len() <= j ==> #[trigger] r.excludes[i]
                    != #[trigger] r.excludes[j]
        }),
    decreases ps.len(),
{
    if ps.len() > 0 {
        let d = ps.drop_last();
        let p = ps.last();
        let q = c.with_patterns(d);
        let r = c.with_patterns(ps);
        added_patterns_are_in_force(c, d);
        adding_patterns_keeps_settings(c, d);
        assert forall|i: int| c.excludes.len() <= i < r.excludes.len() implies ps.contains(
            #[trigger] r.excludes[i],
        ) by {
            if i < q.excludes.len() {
                assert(r.excludes[i] == q.excludes[i]);
                let k = choose|k: int| 0 <= k < d.len() && d[k] == q.excludes[i];
                assert(ps[k] == q.excludes[i]);
            } else {
                assert(ps[ps.len() - 1] == p);
            }
        }
        if !q.excludes.contains(p) {
            assert forall|i: int, j: int|
                0 <= i < j < r.excludes.len() && c.excludes.len() <= j implies
                #[trigger] r.excludes[i] != #[trigger] r.excludes[j] by {
                assert(r.excludes[i] == q.excludes[i]);
                if j < q.excludes.len() {
                    assert(r.excludes[j] == q.excludes[j]);
                } else {
                    assert(q.excludes.contains(q.excludes[i]));
                }
            }
        }
    }
}

} // verus!
