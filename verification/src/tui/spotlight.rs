//! The path picker: what is typed, what it may mean, and what is offered.

use vstd::prelude::*;

use crate::lists::{lemma_filter_all, lemma_filter_keeps, lemma_filter_none, lemma_filter_step};
use crate::order::{key_views, order_of, picked, positions, stable_order, Key, KeyView};
use crate::paths::{file_name, file_name_of, join, joined, parent, parent_of};
use crate::text::{
    chars_of, ends_with, ends_with_char, has_prefix, lowercase, lowercase_text, same_text,
    starts_with_text, tail_chars, text_between, texts, trim_end_char, without_trailing,
};

verus! {

/// The largest number of entries that are offered.
pub const MAX_OFFERED: usize = 64;

/// How long typing has to rest before a directory is read, in nanoseconds.
pub const DEBOUNCE_NS: u64 = 50_000_000;

/// An entry that is offered.
#[derive(Debug)]
pub struct SpotlightEntry {
    pub path: String,
    pub name: String,
    pub is_dir: bool,
    pub size_hint: Option<u64>,
}

impl SpotlightEntry {
    /// A copy.
    pub fn copy(&self) -> (r: SpotlightEntry)
        ensures
            r == *self,
    {
        SpotlightEntry {
            path: self.path.clone(),
            name: self.name.clone(),
            is_dir: self.is_dir,
            size_hint: self.size_hint,
        }
    }
}

/// A directory to be read for the picker.
#[derive(Debug)]
pub struct SpotlightReq {
    pub generation: u64,
    pub parent: String,
    pub partial: String,
}

/// The mathematical form of a [`SpotlightReq`].
#[verifier::ext_equal]
pub struct ReqView {
    pub generation: u64,
    pub parent: Seq<char>,
    pub partial: Seq<char>,
}

impl View for SpotlightReq {
    type V = ReqView;

    open spec fn view(&self) -> ReqView {
        ReqView { generation: self.generation, parent: self.parent@, partial: self.partial@ }
    }
}

/// What was found in a directory.
#[derive(Debug)]
pub struct SpotlightResp {
    pub generation: u64,
    pub parent: String,
    pub entries: Vec<SpotlightEntry>,
}

/// The state of the picker.
pub struct SpotlightState {
    pub input: String,
    pub candidates: Vec<SpotlightEntry>,
    pub selected: usize,
    /// When the input was last changed, in nanoseconds.
    pub last_input_change: u64,
    pub pending_refresh: bool,
    pub current_generation: u64,
    /// The directory that was read last, and what was in it.
    pub cache: Option<(String, Vec<SpotlightEntry>)>,
}

/// The mathematical form of a [`SpotlightState`].
#[verifier::ext_equal]
pub struct SpotlightView {
    pub input: Seq<char>,
    pub candidates: Seq<SpotlightEntry>,
    pub selected: nat,
    pub changed_at: u64,
    pub pending: bool,
    pub generation: u64,
    pub cache: Option<(Seq<char>, Seq<SpotlightEntry>)>,
}

/// The view of an optional listing.
pub open spec fn cache_view(c: Option<(String, Vec<SpotlightEntry>)>) -> Option<
    (Seq<char>, Seq<SpotlightEntry>),
> {
    match c {
        Some(p) => Some((p.0@, p.1@)),
        None => None,
    }
}

impl View for SpotlightState {
    type V = SpotlightView;

    open spec fn view(&self) -> SpotlightView {
        SpotlightView {
            input: self.input@,
            candidates: self.candidates@,
            selected: self.selected as nat,
            changed_at: self.last_input_change,
            pending: self.pending_refresh,
            generation: self.current_generation,
            cache: cache_view(self.cache),
        }
    }
}

/// A path with the tilde at its start replaced by the home directory.
pub open spec fn expanded(input: Seq<char>, home: Option<Seq<char>>) -> Seq<char> {
    match home {
        Some(h) => if has_prefix(input, "~/"@) {
            joined(h, input.skip(2))
        } else if input == "~"@ {
            h
        } else {
            input
        },
        None => input,
    }
}

/// The directory part of a path that does not end in a slash.
pub open spec fn parent_or_root(p: Seq<char>) -> Seq<char> {
    match parent_of(p) {
        Some(x) => if x.len() == 0 {
            "/"@
        } else {
            x
        },
        None => "/"@,
    }
}

/// What was typed, as a directory and the start of a name in it.
pub open spec fn split_typed(input: Seq<char>, home: Option<Seq<char>>) -> (Seq<char>, Seq<char>) {
    let e = expanded(input, home);
    if e.len() == 0 {
        ("/"@, Seq::empty())
    } else if ends_with(e, '/') {
        let t = without_trailing(e, '/');
        (
            if t.len() == 0 {
                "/"@
            } else {
                t
            },
            Seq::empty(),
        )
    } else {
        (
            parent_or_root(e),
            match file_name_of(e) {
                Some(n) => n,
                None => Seq::empty(),
            },
        )
    }
}

/// The entries whose names start with what was typed, regardless of case; not
/// too many.
pub open spec fn offered(entries: Seq<SpotlightEntry>, partial: Seq<char>) -> Seq<SpotlightEntry> {
    let hits = entries.filter(
        |e: SpotlightEntry| has_prefix(lowercase_text(e.name@), lowercase_text(partial)),
    );
    if hits.len() <= MAX_OFFERED {
        hits
    } else {
        hits.take(MAX_OFFERED as int)
    }
}

/// A character without the difference between large and small ASCII letters.
pub open spec fn folded(c: char) -> char {
    if 'A' <= c <= 'Z' {
        (c as u32 + 32) as char
    } else {
        c
    }
}

/// Whether two texts start with the same `k` characters, regardless of the case
/// of ASCII letters.
pub open spec fn share_start(a: Seq<char>, b: Seq<char>, k: nat) -> bool {
    k <= a.len() && k <= b.len() && forall|i: int|
        0 <= i < k ==> folded(#[trigger] a[i]) == folded(b[i])
}

/// The length of the start that two texts share.
pub open spec fn shared_len(a: Seq<char>, b: Seq<char>) -> nat
    decreases a.len(),
{
    if a.len() > 0 && b.len() > 0 && folded(a[0]) == folded(b[0]) {
        1 + shared_len(a.skip(1), b.skip(1))
    } else {
        0
    }
}

/// The length of the start that the first of some texts shares with all others.
pub open spec fn shared_by_all(names: Seq<Seq<char>>) -> nat
    decreases names.len(),
{
    if names.len() == 0 {
        0
    } else if names.len() == 1 {
        names[0].len()
    } else {
        let n = shared_by_all(names.drop_last());
        let m = shared_len(names[0], names.last());
        if n <= m {
            n
        } else {
            m
        }
    }
}

/// The start that some texts share, as the first one writes it.
pub open spec fn common_prefix(names: Seq<Seq<char>>) -> Seq<char> {
    if names.len() == 0 {
        Seq::empty()
    } else {
        names[0].take(shared_by_all(names) as int)
    }
}

proof fn lemma_shared_len(a: Seq<char>, b: Seq<char>)
    ensures
        share_start(a, b, shared_len(a, b)),
        shared_len(a, b) < a.len() && shared_len(a, b) < b.len() ==> folded(
            a[shared_len(a, b) as int],
        ) != folded(b[shared_len(a, b) as int]),
    decreases a.len(),
{
    if a.len() > 0 && b.len() > 0 && folded(a[0]) == folded(b[0]) {
        lemma_shared_len(a.skip(1), b.skip(1));
        let k = shared_len(a, b);
        assert forall|i: int| 0 <= i < k implies folded(#[trigger] a[i]) == folded(b[i]) by {
            if i > 0 {
                assert(a.skip(1)[i - 1] == a[i]);
                assert(b.skip(1)[i - 1] == b[i]);
            }
        }
    }
}

/// Every name starts with the common prefix, regardless of case, and no longer
/// start of the first name is shared by all.
pub proof fn common_prefix_is_longest(names: Seq<Seq<char>>, k: nat)
    requires
        names.len() > 0,
    ensures
        shared_by_all(names) <= names[0].len(),
        forall|i: int|
            0 <= i < names.len() ==> share_start(
                names[0],
                #[trigger] names[i],
                shared_by_all(names),
            ),
        (forall|i: int| 0 <= i < names.len() ==> share_start(names[0], #[trigger] names[i], k))
            ==> k <= shared_by_all(names),
    decreases names.len(),
{
    if names.len() > 1 {
        let d = names.drop_last();
        common_prefix_is_longest(d, k);
        lemma_shared_len(names[0], names.last());
        let n = shared_by_all(names);
        assert(d[0] == names[0]);
        assert forall|i: int| 0 <= i < names.len() implies share_start(
            names[0],
            #[trigger] names[i],
            n,
        ) by {
            if i < names.len() - 1 {
                assert(d[i] == names[i]);
            }
        }
        if forall|i: int| 0 <= i < names.len() ==> share_start(names[0], #[trigger] names[i], k) {
            assert forall|i: int| 0 <= i < d.len() implies share_start(
                d[0],
                #[trigger] d[i],
                k,
            ) by {
                assert(d[i] == names[i]);
            }
            assert(share_start(names[0], names[names.len() - 1], k));
            let m = shared_len(names[0], names.last());
            if k > m {
                assert(folded(names[0][m as int]) == folded(names.last()[m as int]));
            }
        }
    }
}

/// At most [`MAX_OFFERED`] entries are offered, and each of them starts with
/// what was typed.
pub proof fn offers_match(entries: Seq<SpotlightEntry>, partial: Seq<char>)
    ensures
        offered(entries, partial).len() <= MAX_OFFERED,
        forall|i: int|
            0 <= i < offered(entries, partial).len() ==> has_prefix(
                lowercase_text((#[trigger] offered(entries, partial)[i]).name@),
                lowercase_text(partial),
            ),
{
    let pred = |e: SpotlightEntry| has_prefix(lowercase_text(e.name@), lowercase_text(partial));
    crate::lists::lemma_filter_passes(entries, pred);
    let hits = entries.filter(pred);
    let o = offered(entries, partial);
    assert forall|i: int| 0 <= i < o.len() implies has_prefix(
        lowercase_text((#[trigger] o[i]).name@),
        lowercase_text(partial),
    ) by {
        assert(o[i] == hits[i]);
        assert(pred(hits[i]));
    }
}

/// A path with the tilde at its start replaced by the home directory.
pub fn expand_tilde(input: &str, home: Option<&str>) -> (r: String)
    ensures
        r@ == expanded(input@, opt_text(home)),
{
    match home {
        Some(h) => {
            if starts_with_text(input, "~/") {
                proof {
                    reveal_strlit("~/");
                }
                let n = input.unicode_len();
                let rest = tail_chars(input, n - 2);
                assert(rest@ =~= input@.skip(2));
                return join(h, &rest);
            }
            if same_text(input, "~") {
                return h.to_owned();
            }
            input.to_owned()
        },
        None => input.to_owned(),
    }
}

/// The view of an optional text.
pub open spec fn opt_text(s: Option<&str>) -> Option<Seq<char>> {
    match s {
        Some(t) => Some(t@),
        None => None,
    }
}

/// What was typed, as a directory and the start of a name in it.
pub fn split_input(input: &str, home: Option<&str>) -> (r: (String, String))
    ensures
        (r.0@, r.1@) == split_typed(input@, opt_text(home)),
{
    let e = expand_tilde(input, home);
    let none = String::new();
    assert(none@ =~= Seq::<char>::empty());
    if e.as_str().unicode_len() == 0 {
        return ("/".to_owned(), none);
    }
    if ends_with_char(&e, '/') {
        let t = trim_end_char(&e, '/');
        let dir = if t.as_str().unicode_len() == 0 {
            "/".to_owned()
        } else {
            t
        };
        return (dir, none);
    }
    let dir = match parent(&e) {
        Some(x) => if x.as_str().unicode_len() == 0 {
            "/".to_owned()
        } else {
            x
        },
        None => "/".to_owned(),
    };
    let partial = match file_name(&e) {
        Some(n) => n,
        None => none,
    };
    (dir, partial)
}

/// The entries whose names start with what was typed: the first of all where
/// nothing was.
pub fn filter_entries(entries: &Vec<SpotlightEntry>, partial: &str) -> (r: Vec<SpotlightEntry>)
    ensures
        r@ == offered(entries@, partial@),
        partial@.len() == 0 ==> r@ == entries@.take(
            if entries@.len() <= MAX_OFFERED {
                entries@.len() as int
            } else {
                MAX_OFFERED as int
            },
        ),
{
    let needle = lowercase(partial);
    let ghost all = entries@;
    let ghost pred = |e: SpotlightEntry| has_prefix(lowercase_text(e.name@), needle@);
    let ghost hits = all.filter(pred);
    let mut out: Vec<SpotlightEntry> = Vec::new();
    let mut i: usize = 0;
    proof {
        lemma_filter_none(all, pred);
    }
    while i < entries.len() && out.len() < MAX_OFFERED
        invariant
            i <= all.len(),
            all == entries@,
            pred == (|e: SpotlightEntry| has_prefix(lowercase_text(e.name@), needle@)),
            out@.len() <= MAX_OFFERED,
            out@ == all.take(i as int).filter(pred),
        decreases all.len() - i,
    {
        proof {
            lemma_filter_step(all, i as int, pred);
        }
        let e = &entries[i];
        if starts_with_text(&lowercase(&e.name), &needle) {
            out.push(e.copy());
        }
        i = i + 1;
    }
    proof {
        lemma_filter_all(all, pred);
        lemma_filter_prefix(all, i as int, pred);
        if i < all.len() {
            assert(hits.take(MAX_OFFERED as int) =~= out@);
            if hits.len() <= MAX_OFFERED {
                assert(hits =~= hits.take(MAX_OFFERED as int));
            }
        } else {
            assert(all.take(i as int) =~= all);
        }
        if partial@.len() == 0 {
            assert forall|e: SpotlightEntry| #[trigger] pred(e) by {
                assert(lowercase_text(e.name@).take(0) =~= needle@);
            }
            lemma_filter_keeps(all, pred);
            assert(all.take(all.len() as int) =~= all);
        }
        assert(pred =~= |e: SpotlightEntry|
            has_prefix(lowercase_text(e.name@), lowercase_text(partial@)));
    }
    out
}

/// What is kept of the first items is a start of what is kept of all.
proof fn lemma_filter_prefix(
    s: Seq<SpotlightEntry>,
    i: int,
    pred: spec_fn(SpotlightEntry) -> bool,
)
    requires
        0 <= i <= s.len(),
    ensures
        s.take(i).filter(pred).len() <= s.filter(pred).len(),
        s.filter(pred).take(s.take(i).filter(pred).len() as int) == s.take(i).filter(pred),
    decreases s.len(),
{
    if i == s.len() {
        assert(s.take(i) =~= s);
        assert(s.filter(pred).take(s.filter(pred).len() as int) =~= s.filter(pred));
    } else {
        let d = s.drop_last();
        lemma_filter_prefix(d, i, pred);
        assert(d.take(i) =~= s.take(i));
        lemma_filter_step(s, s.len() - 1, pred);
        assert(s.take(s.len() as int) =~= s);
        assert(s.take(s.len() - 1) =~= d);
        let n = s.take(i).filter(pred).len() as int;
        assert(s.filter(pred).take(n) =~= d.filter(pred).take(n));
    }
}

fn fold(c: char) -> (r: char)
    ensures
        r == folded(c),
{
    if 'A' <= c && c <= 'Z' {
        (c as u8 + 32) as char
    } else {
        c
    }
}

fn shared(a: &Vec<char>, b: &Vec<char>) -> (r: usize)
    ensures
        r == shared_len(a@, b@),
        r <= a@.len(),
{
    let mut k: usize = 0;
    assert(a@.skip(0) =~= a@);
    assert(b@.skip(0) =~= b@);
    while k < a.len() && k < b.len() && fold(a[k]) == fold(b[k])
        invariant
            k <= a@.len(),
            k <= b@.len(),
            shared_len(a@, b@) == k + shared_len(a@.skip(k as int), b@.skip(k as int)),
        decreases a@.len() - k,
    {
        assert(a@.skip(k as int).skip(1) =~= a@.skip(k + 1));
        assert(b@.skip(k as int).skip(1) =~= b@.skip(k + 1));
        k = k + 1;
    }
    k
}

/// The start that some names share.
pub fn longest_common_prefix(names: &Vec<String>) -> (r: String)
    ensures
        r@ == common_prefix(texts(names@)),
{
    let ghost all = texts(names@);
    if names.len() == 0 {
        let none = String::new();
        assert(none@ =~= Seq::<char>::empty());
        return none;
    }
    let first = chars_of(&names[0]);
    assert(first@ == all[0]);
    let mut end: usize = first.len();
    let mut i: usize = 1;
    assert(all.take(1).len() == 1);
    while i < names.len()
        invariant
            1 <= i <= names@.len(),
            all == texts(names@),
            first@ == all[0],
            end <= first@.len(),
            end == shared_by_all(all.take(i as int)),
        decreases names@.len() - i,
    {
        let other = chars_of(&names[i]);
        let m = shared(&first, &other);
        if m < end {
            end = m;
        }
        i = i + 1;
        let ghost t = all.take(i as int);
        assert(t.drop_last() =~= all.take(i - 1));
        assert(t[0] == all[0]);
        assert(t.last() == other@);
    }
    assert(all.take(i as int) =~= all);
    let r = text_between(&first, 0, end);
    assert(r@ =~= all[0].take(end as int));
    r
}

/// What entries of a listing are sorted by.
pub open spec fn listing_keys(s: Seq<SpotlightEntry>) -> Seq<KeyView> {
    s.map_values(|e: SpotlightEntry| KeyView::Name(lowercase_text(e.name@)))
}

/// Entries sorted by name, regardless of case.
pub open spec fn by_name(s: Seq<SpotlightEntry>) -> Seq<SpotlightEntry> {
    picked(s, stable_order(listing_keys(s), false))
}

/// A listing in order: directories first, each kind by name.
pub open spec fn listing_order(s: Seq<SpotlightEntry>) -> Seq<SpotlightEntry> {
    by_name(s.filter(|e: SpotlightEntry| e.is_dir)) + by_name(
        s.filter(|e: SpotlightEntry| !e.is_dir),
    )
}

fn select_kind(s: &Vec<SpotlightEntry>, dirs: bool) -> (r: Vec<SpotlightEntry>)
    ensures
        r@ == s@.filter(|e: SpotlightEntry| e.is_dir == dirs),
{
    let ghost all = s@;
    let ghost pred = |e: SpotlightEntry| e.is_dir == dirs;
    let mut out: Vec<SpotlightEntry> = Vec::new();
    let mut i: usize = 0;
    proof {
        lemma_filter_none(all, pred);
    }
    while i < s.len()
        invariant
            i <= all.len(),
            all == s@,
            pred == (|e: SpotlightEntry| e.is_dir == dirs),
            out@ == all.take(i as int).filter(pred),
        decreases all.len() - i,
    {
        proof {
            lemma_filter_step(all, i as int, pred);
        }
        let e = &s[i];
        if e.is_dir == dirs {
            out.push(e.copy());
        }
        i = i + 1;
    }
    proof {
        lemma_filter_all(all, pred);
    }
    out
}

fn push_by_name(s: &Vec<SpotlightEntry>, out: &mut Vec<SpotlightEntry>)
    ensures
        final(out)@ == old(out)@ + by_name(s@),
{
    let ghost all = listing_keys(s@);
    let mut keys: Vec<Key> = Vec::new();
    let mut i: usize = 0;
    while i < s.len()
        invariant
            i <= s@.len(),
            all == listing_keys(s@),
            key_views(keys@) == all.take(i as int),
        decreases s@.len() - i,
    {
        let ghost before = key_views(keys@);
        let k = Key::Name(chars_of(&lowercase(&s[i].name)));
        keys.push(k);
        assert(key_views(keys@) =~= before.push(k@));
        i = i + 1;
        assert(all.take(i as int) =~= all.take(i - 1).push(k@));
    }
    assert(all.take(i as int) =~= all);
    assert(keys@.len() == key_views(keys@).len());
    let order = order_of(&keys, false);
    let ghost first = out@;
    let ghost sorted = picked(s@, positions(order@));
    let mut j: usize = 0;
    assert(out@ =~= first + sorted.take(0));
    while j < order.len()
        invariant
            j <= order@.len(),
            order@.len() == s@.len(),
            forall|k: int| 0 <= k < order@.len() ==> (#[trigger] order@[k]) < s@.len(),
            sorted == picked(s@, positions(order@)),
            out@ == first + sorted.take(j as int),
        decreases order@.len() - j,
    {
        let e = s[order[j]].copy();
        assert(e == sorted[j as int]);
        out.push(e);
        j = j + 1;
        assert(sorted.take(j as int) =~= sorted.take(j - 1).push(e));
        assert(out@ =~= first + sorted.take(j as int));
    }
    assert(sorted.take(j as int) =~= sorted);
}

/// Puts a listing in order.
pub fn sort_listing(s: &Vec<SpotlightEntry>) -> (r: Vec<SpotlightEntry>)
    ensures
        r@ == listing_order(s@),
{
    let dirs = select_kind(s, true);
    let files = select_kind(s, false);
    proof {
        assert((|e: SpotlightEntry| e.is_dir == true) =~= (|e: SpotlightEntry| e.is_dir));
        assert((|e: SpotlightEntry| e.is_dir == false) =~= (|e: SpotlightEntry| !e.is_dir));
    }
    let mut out: Vec<SpotlightEntry> = Vec::new();
    push_by_name(&dirs, &mut out);
    push_by_name(&files, &mut out);
    assert(out@ =~= listing_order(s@));
    out
}

/// The directory to be read for a request: the root where none is named.
pub fn directory_of(parent: &str) -> (r: String)
    ensures
        r@ == (if parent@.len() == 0 {
            "/"@
        } else {
            parent@
        }),
{
    if parent.unicode_len() == 0 {
        "/".to_owned()
    } else {
        parent.to_owned()
    }
}

} // verus!
