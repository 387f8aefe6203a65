//! Scans: what is shown while one runs, and which trees are kept to be shown
//! again.

use vstd::prelude::*;

use crate::lists::{lemma_filter_all, lemma_filter_none, lemma_filter_passes, lemma_filter_step};
use crate::paths::{same_components, same_path};
use crate::text::{decimal, decimal_text, texts};
use crate::tui::navigate::{concat, concat3, push_text};
use crate::tui::rows::{last_selectable, last_selectable_idx};
use crate::tui::{App, AppView};
use crate::walker::{head, new_head, Node, ScanResult, WalkOptions};

verus! {

/// How old a tree may be to be shown again, in nanoseconds.
pub const FRESH_NS: u64 = 30_000_000_000;

/// How old a tree may be to be kept.
pub const KEEP_NS: u64 = 300_000_000_000;

/// How many trees are kept.
pub const KEEP_TREES: usize = 50;

/// What came of a scan.
pub enum RescanOutcome {
    /// The directory is not there.
    Missing,
    /// It is no directory.
    NotDir,
    /// It could not be scanned, and why.
    Failed(String),
    Scanned(ScanResult),
}

/// A tree, and when it was scanned, in nanoseconds.
pub struct CachedScan {
    pub root: Node,
    pub warnings: Vec<String>,
    pub at: u64,
}

/// The mathematical form of a [`CachedScan`].
#[verifier::ext_equal]
pub struct CachedView {
    pub root: Node,
    pub warnings: Seq<Seq<char>>,
    pub at: u64,
}

impl View for CachedScan {
    type V = CachedView;

    open spec fn view(&self) -> CachedView {
        CachedView { root: self.root, warnings: texts(self.warnings@), at: self.at }
    }
}

pub open spec fn cached_views(s: Seq<CachedScan>) -> Seq<CachedView> {
    s.map_values(|e: CachedScan| e@)
}

/// How long ago something was.
#[verifier::allow_in_spec]
pub fn age(at: u64, now: u64) -> u64
    returns
        (if now >= at {
            (now - at) as u64
        } else {
            0
        }),
{
    if now >= at {
        now - at
    } else {
        0
    }
}

/// Whether two texts name the same place.
pub open spec fn same_place(a: Seq<char>, b: Seq<char>) -> bool {
    a == b || same_components(a, b)
}

/// What is said of a scan: where it runs, and the depth to which is shown.
pub open spec fn scan_text(path: Seq<char>, depth: usize) -> Seq<char> {
    "scan: "@ + path + " (render depth "@ + decimal_text(depth as nat) + ")"@
}

/// An empty directory that stands for one that is still being scanned.
pub open spec fn stands_in(n: Node, path: Seq<char>) -> bool {
    head(n) == new_head(path, true, 0, None, None) && n.children@.len() == 0
}

/// The trees of other places than this one.
pub open spec fn elsewhere(c: Seq<CachedView>, path: Seq<char>) -> Seq<CachedView> {
    c.filter(|e: CachedView| !same_place(e.root.path@, path))
}

/// With a tree in the place of any other of the same directory.
pub open spec fn put(c: Seq<CachedView>, e: CachedView) -> Seq<CachedView> {
    elsewhere(c, e.root.path@).push(e)
}

/// The trees that are not too old.
pub open spec fn young(c: Seq<CachedView>, now: u64) -> Seq<CachedView> {
    c.filter(|e: CachedView| age(e.at, now) <= KEEP_NS)
}

/// The first of the oldest trees.
pub open spec fn oldest(c: Seq<CachedView>) -> int
    decreases c.len(),
{
    if c.len() <= 1 {
        0
    } else {
        let k = oldest(c.drop_last());
        if c.last().at < c[k].at {
            c.len() - 1
        } else {
            k
        }
    }
}

/// The latest trees, at most `n` of them.
pub open spec fn latest(c: Seq<CachedView>, n: nat) -> Seq<CachedView>
    decreases c.len(),
{
    if c.len() <= n {
        c
    } else {
        proof {
            lemma_oldest_in(c);
        }
        latest(c.remove(oldest(c)), n)
    }
}

/// Where the latest tree of a place is, or -1.
pub open spec fn cached_at(c: Seq<CachedView>, path: Seq<char>) -> int
    decreases c.len(),
{
    if c.len() == 0 {
        -1
    } else if same_place(c.last().root.path@, path) {
        c.len() - 1
    } else {
        cached_at(c.drop_last(), path)
    }
}

impl AppView {
    /// Whether the tree that is shown is that of a place.
    pub open spec fn shows(self, path: Seq<char>) -> bool {
        same_place(self.root.path@, path)
    }

    /// Whether a place is being scanned.
    pub open spec fn scans(self, path: Seq<char>) -> bool {
        self.scan_target is Some && same_place(self.scan_target->0, path)
    }

    /// Where a tree is that can be shown again, or -1.
    pub open spec fn fresh_at(self, path: Seq<char>, now: u64) -> int {
        let i = cached_at(self.scan_cache, path);
        if 0 <= i < self.scan_cache.len() && age(self.scan_cache[i].at, now) < FRESH_NS {
            i
        } else {
            -1
        }
    }

    /// The kept trees together with the one that is shown.
    pub open spec fn stashed(self) -> Seq<CachedView> {
        match self.root_at {
            Some(at) => put(
                self.scan_cache,
                CachedView { root: self.root, warnings: self.warnings, at },
            ),
            None => self.scan_cache,
        }
    }

    /// With another tree shown, from its top; the one before is kept.
    pub open spec fn showing(
        self,
        root: Node,
        warnings: Seq<Seq<char>>,
        at: Option<u64>,
    ) -> AppView {
        AppView {
            root,
            warnings,
            root_at: at,
            scan_cache: self.stashed(),
            cursor: 0,
            scroll: 0,
            warnings_scroll: 0,
            ..self
        }
    }

    pub open spec fn with_cache(self, scan_cache: Seq<CachedView>) -> AppView {
        AppView { scan_cache, ..self }
    }

    /// Whether nothing of a place can be shown before it was scanned.
    pub open spec fn knows_nothing_of(self, path: Seq<char>, now: u64) -> bool {
        !self.shows(path) && self.fresh_at(path, now) < 0
    }

    /// With what is shown of a place before it was scanned: what is shown of it
    /// already, else a tree that is fresh, else an empty directory.
    pub open spec fn led_to(self, path: Seq<char>, now: u64, stand_in: Node) -> AppView {
        let i = self.fresh_at(path, now);
        if self.shows(path) {
            self
        } else if i >= 0 {
            let e = self.scan_cache[i];
            self.with_cache(self.scan_cache.remove(i)).showing(e.root, e.warnings, Some(e.at))
        } else {
            self.showing(stand_in, Seq::empty(), None)
        }
    }

    /// What the start of a scan changes.
    pub open spec fn scanning(self, path: Seq<char>, now: u64) -> AppView {
        AppView { scan_target: Some(path), rescanning: true, ..self }.flashed(
            scan_text(path, self.config.depth),
            now,
        )
    }

    /// What going to a place changes before it was scanned. One that is being
    /// scanned is not scanned a second time.
    pub open spec fn scan_begun(self, path: Seq<char>, now: u64, stand_in: Node) -> AppView {
        if self.scans(path) {
            self.led_to(path, now, stand_in)
        } else {
            self.led_to(path, now, stand_in).scanning(path, now)
        }
    }

    /// What the end of a scan changes, whatever came of it.
    pub open spec fn scan_over(self, path: Seq<char>) -> AppView {
        if self.scans(path) {
            AppView { scan_target: None, rescanning: false, ..self }
        } else {
            self
        }
    }

    /// How many trees are kept besides the one that is shown.
    pub open spec fn room(self) -> nat {
        if self.root_at is Some {
            (KEEP_TREES - 1) as nat
        } else {
            KEEP_TREES as nat
        }
    }

    /// Without the trees that are too old, and the oldest of too many.
    pub open spec fn evicted(self, now: u64) -> AppView {
        self.with_cache(latest(young(self.scan_cache, now), self.room()))
    }

    /// With the cursor no further down than the last row that can be selected.
    pub open spec fn cursor_clamped(self) -> AppView {
        if self.rows_ready() && self.cursor > last_selectable(self.rows()) {
            self.at_row(last_selectable(self.rows()))
        } else {
            self
        }
    }

    /// With a tree that was just scanned: it is shown where its place is, and
    /// kept where another is shown by now.
    pub open spec fn tree_taken(self, path: Seq<char>, s: ScanResult, now: u64) -> AppView {
        if self.shows(path) {
            AppView {
                root: s.root,
                warnings: texts(s.warnings@),
                warnings_scroll: 0,
                root_at: Some(now),
                ..self
            }.cursor_clamped()
        } else {
            self.with_cache(
                put(
                    self.scan_cache,
                    CachedView { root: s.root, warnings: texts(s.warnings@), at: now },
                ),
            )
        }
    }

    /// What a scan changes.
    pub open spec fn rescanned(
        self,
        path: Seq<char>,
        outcome: RescanOutcome,
        now: u64,
    ) -> AppView {
        match outcome {
            RescanOutcome::Missing => self.flashed("path no longer exists: "@ + path, now),
            RescanOutcome::NotDir => self.flashed("not a directory: "@ + path, now),
            RescanOutcome::Failed(why) => self.scan_over(path).flashed(
                "scan error: "@ + why@,
                now,
            ),
            RescanOutcome::Scanned(s) => self.tree_taken(path, s, now).evicted(now).scan_over(
                path,
            ),
        }
    }

    /// Without any tree that could be shown again.
    pub open spec fn scans_forgotten(self) -> AppView {
        AppView { root_at: None, scan_cache: Seq::empty(), ..self }
    }
}

pub(crate) fn is_same_place(a: &str, b: &str) -> (r: bool)
    ensures
        r == same_place(a@, b@),
{
    same_path(a, b)
}

/// None is older than the oldest, and the last one is it only where it is alone or
/// older than the first.
pub proof fn lemma_oldest_in(c: Seq<CachedView>)
    requires
        c.len() > 0,
    ensures
        0 <= oldest(c) < c.len(),
        forall|i: int| 0 <= i < c.len() ==> c[oldest(c)].at <= #[trigger] c[i].at,
        oldest(c) == c.len() - 1 ==> c.len() == 1 || c.last().at < c[0].at,
    decreases c.len(),
{
    if c.len() > 1 {
        let d = c.drop_last();
        lemma_oldest_in(d);
        assert(d[oldest(d)] == c[oldest(d)]);
        assert forall|i: int| 0 <= i < c.len() implies c[oldest(c)].at <= #[trigger] c[i].at by {
            if i < d.len() {
                assert(d[i] == c[i]);
            }
        }
        assert(d[0] == c[0]);
    }
}

proof fn lemma_latest(c: Seq<CachedView>, n: nat)
    ensures
        latest(c, n) == (if c.len() <= n {
            c
        } else {
            latest(c.remove(oldest(c)), n)
        }),
        latest(c, n).len() == (if c.len() <= n {
            c.len()
        } else {
            n
        }),
    decreases c.len(),
{
    if c.len() > n {
        lemma_oldest_in(c);
        lemma_latest(c.remove(oldest(c)), n);
    }
}

/// A last tree that is also the latest is kept.
proof fn lemma_latest_last(c: Seq<CachedView>, n: nat)
    requires
        n > 0,
        c.len() > 0,
        forall|i: int| 0 <= i < c.len() ==> #[trigger] c[i].at <= c.last().at,
    ensures
        latest(c, n).len() > 0,
        latest(c, n).last() == c.last(),
    decreases c.len(),
{
    lemma_latest(c, n);
    if c.len() > n {
        lemma_oldest_in(c);
        let d = c.remove(oldest(c));
        assert(c[0].at <= c.last().at);
        assert(d.last() == c.last());
        assert forall|i: int| 0 <= i < d.len() implies #[trigger] d[i].at <= d.last().at by {
            if i < oldest(c) {
                assert(d[i] == c[i]);
            } else {
                assert(d[i] == c[i + 1]);
            }
        }
        lemma_latest_last(d, n);
    }
}

proof fn lemma_cached_at(c: Seq<CachedView>, path: Seq<char>)
    ensures
        -1 <= cached_at(c, path) < c.len(),
        cached_at(c, path) >= 0 ==> same_place(c[cached_at(c, path)].root.path@, path),
    decreases c.len(),
{
    if c.len() > 0 {
        lemma_cached_at(c.drop_last(), path);
    }
}

/// Items of which the first `k` were filtered.
spec fn half_filtered(c: Seq<CachedView>, k: int, pred: spec_fn(CachedView) -> bool) -> Seq<
    CachedView,
> {
    c.take(k).filter(pred) + c.skip(k)
}

proof fn lemma_half_filtered(c: Seq<CachedView>, k: int, pred: spec_fn(CachedView) -> bool)
    requires
        0 <= k < c.len(),
    ensures
        ({
            let h = half_filtered(c, k, pred);
            let i = c.take(k).filter(pred).len() as int;
            &&& i < h.len()
            &&& h[i] == c[k]
            &&& half_filtered(c, k + 1, pred) == (if pred(c[k]) {
                h
            } else {
                h.remove(i)
            })
            &&& c.take(k + 1).filter(pred).len() == (if pred(c[k]) {
                i + 1
            } else {
                i
            })
        }),
{
    let h = half_filtered(c, k, pred);
    let i = c.take(k).filter(pred).len() as int;
    lemma_filter_step(c, k, pred);
    assert(c.skip(k)[0] == c[k]);
    if pred(c[k]) {
        assert(half_filtered(c, k + 1, pred) =~= h);
    } else {
        assert(half_filtered(c, k + 1, pred) =~= h.remove(i));
    }
}

proof fn lemma_removed(v: Seq<CachedScan>, i: int)
    requires
        0 <= i < v.len(),
    ensures
        cached_views(v.remove(i)) == cached_views(v).remove(i),
{
    assert(cached_views(v.remove(i)) =~= cached_views(v).remove(i));
}

fn drop_place(v: &mut Vec<CachedScan>, path: &str)
    ensures
        cached_views(final(v)@) == elsewhere(cached_views(old(v)@), path@),
{
    let ghost all = cached_views(v@);
    let ghost pred = |e: CachedView| !same_place(e.root.path@, path@);
    let ghost mut k: int = 0;
    let mut i: usize = 0;
    proof {
        lemma_filter_none(all, pred);
        assert(half_filtered(all, 0, pred) =~= all);
    }
    while i < v.len()
        invariant
            0 <= k <= all.len(),
            i <= v@.len(),
            pred == (|e: CachedView| !same_place(e.root.path@, path@)),
            cached_views(v@) == half_filtered(all, k, pred),
            i == all.take(k).filter(pred).len(),
            v@.len() - i == all.len() - k,
        decreases all.len() - k,
    {
        proof {
            lemma_half_filtered(all, k, pred);
            assert(cached_views(v@)[i as int] == v@[i as int]@);
        }
        if is_same_place(&v[i].root.path, path) {
            proof {
                lemma_removed(v@, i as int);
            }
            let _ = v.remove(i);
        } else {
            i = i + 1;
        }
        proof {
            k = k + 1;
        }
    }
    proof {
        lemma_filter_all(all, pred);
        assert(half_filtered(all, k, pred) =~= all.filter(pred));
    }
}

fn drop_old(v: &mut Vec<CachedScan>, now: u64)
    ensures
        cached_views(final(v)@) == young(cached_views(old(v)@), now),
{
    let ghost all = cached_views(v@);
    let ghost pred = |e: CachedView| age(e.at, now) <= KEEP_NS;
    let ghost mut k: int = 0;
    let mut i: usize = 0;
    proof {
        lemma_filter_none(all, pred);
        assert(half_filtered(all, 0, pred) =~= all);
    }
    while i < v.len()
        invariant
            0 <= k <= all.len(),
            i <= v@.len(),
            pred == (|e: CachedView| age(e.at, now) <= KEEP_NS),
            cached_views(v@) == half_filtered(all, k, pred),
            i == all.take(k).filter(pred).len(),
            v@.len() - i == all.len() - k,
        decreases all.len() - k,
    {
        proof {
            lemma_half_filtered(all, k, pred);
            assert(cached_views(v@)[i as int] == v@[i as int]@);
        }
        if age(v[i].at, now) <= KEEP_NS {
            i = i + 1;
        } else {
            proof {
                lemma_removed(v@, i as int);
            }
            let _ = v.remove(i);
        }
        proof {
            k = k + 1;
        }
    }
    proof {
        lemma_filter_all(all, pred);
        assert(half_filtered(all, k, pred) =~= all.filter(pred));
    }
}

fn find_oldest(v: &Vec<CachedScan>) -> (r: usize)
    requires
        v@.len() > 0,
    ensures
        r == oldest(cached_views(v@)),
        r < v@.len(),
{
    let ghost c = cached_views(v@);
    let mut best: usize = 0;
    let mut i: usize = 1;
    while i < v.len()
        invariant
            1 <= i <= v@.len(),
            best < i,
            c == cached_views(v@),
            best == oldest(c.take(i as int)),
        decreases v@.len() - i,
    {
        proof {
            let t = c.take(i + 1);
            assert(t.drop_last() =~= c.take(i as int));
            assert(t[best as int] == v@[best as int]@);
            assert(t.last() == v@[i as int]@);
        }
        if v[i].at < v[best].at {
            best = i;
        }
        i = i + 1;
    }
    assert(c.take(i as int) =~= c);
    best
}

fn keep_latest(v: &mut Vec<CachedScan>, n: usize)
    ensures
        cached_views(final(v)@) == latest(cached_views(old(v)@), n as nat),
{
    let ghost all = cached_views(v@);
    while v.len() > n
        invariant
            latest(all, n as nat) == latest(cached_views(v@), n as nat),
        decreases v@.len(),
    {
        let i = find_oldest(v);
        proof {
            lemma_latest(cached_views(v@), n as nat);
            lemma_removed(v@, i as int);
        }
        let _ = v.remove(i);
    }
    proof {
        lemma_latest(cached_views(v@), n as nat);
    }
}

fn put_scan(v: &mut Vec<CachedScan>, e: CachedScan)
    ensures
        cached_views(final(v)@) == put(cached_views(old(v)@), e@),
{
    drop_place(v, &e.root.path);
    let ghost kept = v@;
    v.push(e);
    assert(cached_views(v@) =~= cached_views(kept).push(e@));
}

impl App {
    fn find_fresh(&self, path: &str, now: u64) -> (r: Option<usize>)
        ensures
            match r {
                Some(i) => i == self@.fresh_at(path@, now) && i < self.scan_cache@.len(),
                None => self@.fresh_at(path@, now) < 0,
            },
    {
        let ghost c = self@.scan_cache;
        let mut i: usize = self.scan_cache.len();
        assert(c.take(i as int) =~= c);
        while i > 0
            invariant
                i <= self.scan_cache@.len(),
                c == cached_views(self.scan_cache@),
                cached_at(c, path@) == cached_at(c.take(i as int), path@),
            decreases i,
        {
            let ghost t = c.take(i as int);
            i = i - 1;
            assert(t.last() == self.scan_cache@[i as int]@);
            assert(t.drop_last() =~= c.take(i as int));
            if is_same_place(&self.scan_cache[i].root.path, path) {
                if age(self.scan_cache[i].at, now) < FRESH_NS {
                    return Some(i);
                }
                return None;
            }
        }
        None
    }

    fn show_tree(&mut self, root: Node, warnings: Vec<String>, at: Option<u64>)
        ensures
            final(self)@ == old(self)@.showing(root, texts(warnings@), at),
            final(self).root == root,
            old(self)@.wf() ==> final(self)@.wf(),
    {
        let ghost v = self@;
        let mut before = root;
        let mut said = warnings;
        std::mem::swap(&mut before, &mut self.root);
        std::mem::swap(&mut said, &mut self.warnings);
        if let Some(t) = self.root_at {
            let e = CachedScan { root: before, warnings: said, at: t };
            assert(e@ =~= (CachedView { root: v.root, warnings: v.warnings, at: t }));
            put_scan(&mut self.scan_cache, e);
        }
        self.root_at = at;
        self.cursor = 0;
        self.scroll = 0;
        self.warnings_scroll = 0;
        assert(self@ =~= v.showing(root, texts(warnings@), at));
    }

    /// Shows what is known of a place.
    fn lead_to(&mut self, path: &str, now: u64)
        ensures
            final(self)@ == old(self)@.led_to(path@, now, final(self).root),
            old(self)@.knows_nothing_of(path@, now) ==> stands_in(final(self).root, path@),
            old(self)@.wf() ==> final(self)@.wf(),
    {
        let ghost v = self@;
        if is_same_place(&self.root.path, path) {
            return;
        }
        match self.find_fresh(path, now) {
            Some(i) => {
                proof {
                    lemma_removed(self.scan_cache@, i as int);
                }
                let e = self.scan_cache.remove(i);
                assert(e@ == v.scan_cache[i as int]);
                assert(self@ =~= v.with_cache(v.scan_cache.remove(i as int)));
                self.show_tree(e.root, e.warnings, Some(e.at));
            },
            None => {
                let none: Vec<String> = Vec::new();
                assert(texts(none@) =~= Seq::<Seq<char>>::empty());
                self.show_tree(Node::placeholder(path.to_owned()), none, None);
            },
        }
    }

    fn is_scanning(&self, path: &str) -> (r: bool)
        ensures
            r == self@.scans(path@),
    {
        match &self.scan_target {
            Some(t) => is_same_place(t, path),
            None => false,
        }
    }

    /// Everything below is scanned but what is excluded. How deep the tree is
    /// shown has no bearing on it.
    fn walk_options(&self) -> (r: WalkOptions)
        ensures
            texts(r.excludes@) == self@.config.active() + self@.session_excludes,
            r.max_depth is None,
    {
        let mut excludes = self.config.active_excludes();
        let ghost active = texts(excludes@);
        let ghost extra = texts(self.session_excludes@);
        let mut i: usize = 0;
        assert(active + extra.take(0) =~= active);
        while i < self.session_excludes.len()
            invariant
                i <= self.session_excludes@.len(),
                extra == texts(self.session_excludes@),
                texts(excludes@) == active + extra.take(i as int),
            decreases self.session_excludes@.len() - i,
        {
            let p = self.session_excludes[i].clone();
            push_text(&mut excludes, p);
            i = i + 1;
            assert(extra.take(i as int) =~= extra.take(i - 1).push(p@));
            assert(active + extra.take(i as int) =~= (active + extra.take(i - 1)).push(p@));
        }
        assert(extra.take(i as int) =~= extra);
        WalkOptions { excludes, max_depth: None }
    }

    /// Goes to a directory. What there is to be scanned, unless that is being
    /// done.
    pub fn begin_rescan(&mut self, path: &str, now: u64) -> (r: Option<WalkOptions>)
        ensures
            final(self)@ == old(self)@.scan_begun(path@, now, final(self).root),
            old(self)@.knows_nothing_of(path@, now) ==> stands_in(final(self).root, path@),
            old(self)@.wf() ==> final(self)@.wf(),
            r is None <==> old(self)@.scans(path@),
            r is Some ==> texts(r->0.excludes@) == old(self)@.config.active()
                + old(self)@.session_excludes && r->0.max_depth is None,
    {
        let running = self.is_scanning(path);
        self.lead_to(path, now);
        if running {
            return None;
        }
        let ghost v = self@;
        self.scan_target = Some(path.to_owned());
        self.rescanning = true;
        assert(self@ =~= (AppView { scan_target: Some(path@), rescanning: true, ..v }));
        let mut text = concat3("scan: ", path, " (render depth ");
        text.append(&decimal(self.config.depth as u64));
        text.append(")");
        assert(text@ =~= scan_text(path@, self.config.depth));
        self.flash(text, now);
        Some(self.walk_options())
    }

    fn end_scan(&mut self, path: &str)
        ensures
            final(self)@ == old(self)@.scan_over(path@),
    {
        if self.is_scanning(path) {
            self.scan_target = None;
            self.rescanning = false;
        }
        assert(self@ =~= old(self)@.scan_over(path@));
    }

    fn evict(&mut self, now: u64)
        ensures
            final(self)@ == old(self)@.evicted(now),
    {
        let room: usize = if self.root_at.is_some() {
            KEEP_TREES - 1
        } else {
            KEEP_TREES
        };
        drop_old(&mut self.scan_cache, now);
        keep_latest(&mut self.scan_cache, room);
        assert(self@ =~= old(self)@.evicted(now));
    }

    fn clamp_cursor(&mut self)
        ensures
            final(self)@ == old(self)@.cursor_clamped(),
    {
        if self.can_build_rows() {
            let last = last_selectable_idx(&self.build_rows());
            if self.cursor > last {
                self.cursor = last;
                assert(self@ =~= old(self)@.at_row(last as nat));
            }
        }
    }

    fn take_tree(&mut self, path: &str, s: ScanResult, now: u64)
        ensures
            final(self)@ == old(self)@.tree_taken(path@, s, now),
    {
        let ghost v = self@;
        if is_same_place(&self.root.path, path) {
            self.root = s.root;
            self.warnings = s.warnings;
            self.warnings_scroll = 0;
            self.root_at = Some(now);
            assert(self@ =~= (AppView {
                root: s.root,
                warnings: texts(s.warnings@),
                warnings_scroll: 0,
                root_at: Some(now),
                ..v
            }));
            self.clamp_cursor();
        } else {
            let e = CachedScan { root: s.root, warnings: s.warnings, at: now };
            assert(e@ =~= (CachedView { root: s.root, warnings: texts(s.warnings@), at: now }));
            put_scan(&mut self.scan_cache, e);
            assert(self@ =~= v.with_cache(put(v.scan_cache, e@)));
        }
    }

    /// A scan is over.
    pub fn finish_rescan(&mut self, path: &str, outcome: RescanOutcome, now: u64)
        ensures
            final(self)@ == old(self)@.rescanned(path@, outcome, now),
            old(self)@.wf() ==> final(self)@.wf(),
    {
        match outcome {
            RescanOutcome::Missing => {
                self.flash(concat("path no longer exists: ", path), now);
            },
            RescanOutcome::NotDir => {
                self.flash(concat("not a directory: ", path), now);
            },
            RescanOutcome::Failed(why) => {
                self.end_scan(path);
                self.flash(concat("scan error: ", &why), now);
            },
            RescanOutcome::Scanned(s) => {
                self.take_tree(path, s, now);
                self.evict(now);
                self.end_scan(path);
            },
        }
    }

    /// Forgets every tree that could be shown again.
    pub fn forget_scans(&mut self)
        ensures
            final(self)@ == old(self)@.scans_forgotten(),
    {
        self.root_at = None;
        self.scan_cache = Vec::new();
        assert(cached_views(self.scan_cache@) =~= Seq::<CachedView>::empty());
        assert(self@ =~= old(self)@.scans_forgotten());
    }
}

/// Where one goes is shown at once, before any scan of it: the tree of that place,
/// or an empty directory with its path.
pub proof fn destinations_are_shown(a: AppView, path: Seq<char>, now: u64, stand_in: Node)
    requires
        stands_in(stand_in, path),
    ensures
        a.scan_begun(path, now, stand_in).shows(path),
        a.scan_begun(path, now, stand_in).scans(path),
{
    lemma_cached_at(a.scan_cache, path);
    assert(head(stand_in).path == path);
}

/// A scan that was begun ends with its tree shown, unless one went elsewhere.
pub proof fn scans_are_shown(
    a: AppView,
    path: Seq<char>,
    s: ScanResult,
    now: u64,
    later: u64,
    stand_in: Node,
)
    requires
        stands_in(stand_in, path),
    ensures
        ({
            let b = a.scan_begun(path, now, stand_in).rescanned(
                path,
                RescanOutcome::Scanned(s),
                later,
            );
            &&& b.root == s.root
            &&& b.warnings == texts(s.warnings@)
            &&& b.scan_target is None
            &&& !b.rescanning
        }),
{
    destinations_are_shown(a, path, now, stand_in);
}

/// A scan of the directory that is shown leaves the cursor where it is, or on
/// the last row that can be selected where there are fewer now; while it runs
/// the tree stays as it is.
pub proof fn rescan_keeps_selection(
    a: AppView,
    path: Seq<char>,
    s: ScanResult,
    now: u64,
    later: u64,
    stand_in: Node,
)
    requires
        a.shows(path),
    ensures
        a.scan_begun(path, now, stand_in).root == a.root,
        a.scan_begun(path, now, stand_in).cursor == a.cursor,
        ({
            let b = a.scan_begun(path, now, stand_in).rescanned(
                path,
                RescanOutcome::Scanned(s),
                later,
            );
            b.rows_ready() ==> b.cursor == (if a.cursor <= last_selectable(b.rows()) {
                a.cursor
            } else {
                last_selectable(b.rows())
            })
        }),
{
    let d = a.scan_begun(path, now, stand_in);
    let b = d.rescanned(path, RescanOutcome::Scanned(s), later);
    let c = AppView {
        root: s.root,
        warnings: texts(s.warnings@),
        warnings_scroll: 0,
        root_at: Some(later),
        ..d
    };
    assert(b == c.cursor_clamped().evicted(later).scan_over(path));
    assert(b.render_opts() == c.render_opts());
    assert(b.rows() == c.rows());
}

/// A tree that comes when one went elsewhere changes nothing that is shown, and is
/// shown at once to who returns in time.
pub proof fn superseded_scans_are_kept(
    a: AppView,
    path: Seq<char>,
    s: ScanResult,
    now: u64,
    later: u64,
    stand_in: Node,
)
    requires
        !a.shows(path),
        s.root.path@ == path,
        age(now, later) < FRESH_NS,
        forall|i: int| 0 <= i < a.scan_cache.len() ==> #[trigger] a.scan_cache[i].at <= now,
    ensures
        ({
            let b = a.rescanned(path, RescanOutcome::Scanned(s), now);
            &&& b.root == a.root
            &&& b.warnings == a.warnings
            &&& b.cursor == a.cursor
            &&& b.led_to(path, later, stand_in).root == s.root
            &&& b.led_to(path, later, stand_in).warnings == texts(s.warnings@)
        }),
{
    let e = CachedView { root: s.root, warnings: texts(s.warnings@), at: now };
    let pred = |x: CachedView| !same_place(x.root.path@, path);
    let c = put(a.scan_cache, e);
    let f = elsewhere(a.scan_cache, path);
    lemma_filter_passes(a.scan_cache, pred);
    assert forall|i: int| 0 <= i < c.len() implies #[trigger] c[i].at <= now by {
        if i < f.len() {
            assert(a.scan_cache.contains(f[i]));
        }
    }
    let old_enough = |x: CachedView| age(x.at, now) <= KEEP_NS;
    let y = young(c, now);
    lemma_filter_step(c, c.len() - 1, old_enough);
    assert(c.take(c.len() as int) =~= c);
    assert(y.last() == e);
    lemma_filter_passes(c, old_enough);
    assert forall|i: int| 0 <= i < y.len() implies #[trigger] y[i].at <= y.last().at by {
        assert(c.contains(y[i]));
    }
    lemma_latest_last(y, a.room());
}

/// Who returns in time sees the tree that was left.
pub proof fn returning_shows_the_tree_left(
    a: AppView,
    path: Seq<char>,
    now: u64,
    later: u64,
    stand_in: Node,
    other: Node,
)
    requires
        a.root_at is Some,
        age(a.root_at->0, later) < FRESH_NS,
        !a.shows(path),
        !a.scan_begun(path, now, stand_in).shows(a.root.path@),
    ensures
        a.scan_begun(path, now, stand_in).led_to(a.root.path@, later, other).root == a.root,
        a.scan_begun(path, now, stand_in).led_to(a.root.path@, later, other).warnings
            == a.warnings,
{
    let b = a.scan_begun(path, now, stand_in);
    let e = CachedView { root: a.root, warnings: a.warnings, at: a.root_at->0 };
    assert(b.scan_cache.last() == e);
}

proof fn lemma_latest_among(c: Seq<CachedView>, n: nat)
    ensures
        forall|i: int| 0 <= i < latest(c, n).len() ==> c.contains(#[trigger] latest(c, n)[i]),
    decreases c.len(),
{
    lemma_latest(c, n);
    if c.len() > n {
        lemma_oldest_in(c);
        let d = c.remove(oldest(c));
        lemma_latest_among(d, n);
        assert forall|i: int| 0 <= i < latest(c, n).len() implies c.contains(
            #[trigger] latest(c, n)[i],
        ) by {
            assert(d.contains(latest(d, n)[i]));
            let j = choose|j: int| 0 <= j < d.len() && d[j] == latest(d, n)[i];
            if j < oldest(c) {
                assert(c[j] == d[j]);
            } else {
                assert(c[j + 1] == d[j]);
            }
        }
    }
}

/// No more trees are kept than there is room for, the one that is shown among
/// them, and none that is too old.
pub proof fn kept_trees_are_bounded(a: AppView, path: Seq<char>, s: ScanResult, now: u64)
    ensures
        ({
            let b = a.rescanned(path, RescanOutcome::Scanned(s), now);
            &&& b.stashed().len() <= KEEP_TREES
            &&& forall|i: int|
                0 <= i < b.scan_cache.len() ==> age(#[trigger] b.scan_cache[i].at, now)
                    <= KEEP_NS
        }),
{
    let d = a.tree_taken(path, s, now);
    let b = a.rescanned(path, RescanOutcome::Scanned(s), now);
    let y = young(d.scan_cache, now);
    let pred = |e: CachedView| age(e.at, now) <= KEEP_NS;
    lemma_latest(y, d.room());
    lemma_latest_among(y, d.room());
    lemma_filter_passes(d.scan_cache, pred);
    lemma_filter_passes(b.scan_cache, |e: CachedView| !same_place(e.root.path@, b.root.path@));
    assert forall|i: int| 0 <= i < b.scan_cache.len() implies age(
        #[trigger] b.scan_cache[i].at,
        now,
    ) <= KEEP_NS by {
        assert(y.contains(b.scan_cache[i]));
        let j = choose|j: int| 0 <= j < y.len() && y[j] == b.scan_cache[i];
        assert(pred(y[j]));
    }
}

/// A scan that is asked for by key starts from nothing that was kept.
pub proof fn forgotten_trees_are_not_shown(a: AppView, path: Seq<char>, now: u64)
    ensures
        a.scans_forgotten().fresh_at(path, now) == -1,
        a.scans_forgotten().stashed().len() == 0,
{
}

} // verus!
