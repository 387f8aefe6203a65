//! What the rows of the tree stand for: which entries have a row, in which order,
//! and how far each is indented.

use vstd::prelude::*;

use crate::cli::{SortBy, SortOrder};
use crate::display::tree::{
    child_row, indent, ordered_children, rows_below, rows_of_first, tree_rows,
};
use crate::display::{
    human_text, listed, listed_children, node_keys, sorted_nodes, RenderOptions, RowView,
};
use crate::order::{picked, precedes, stable_order, stable_order_sorts, text_le};
use crate::stamp::modified_text;
use crate::text::lowercase_text;
use crate::walker::Node;

verus! {

/// Whether an entry is to be listed: it is large enough, it is a directory unless
/// files are shown, and its name does not start with a dot where one row stands for
/// all such entries.
pub open spec fn has_a_row(c: Node, opts: RenderOptions) -> bool {
    &&& c.size >= opts.min_size
    &&& opts.show_files || c.is_dir
    &&& opts.hidden_summary is None || c.name@.len() == 0 || c.name@[0] != '.'
}

/// Whether one entry may be listed above another.
pub open spec fn may_come_first(a: Node, b: Node, sort: SortBy, order: SortOrder) -> bool {
    match (sort, order) {
        (SortBy::Size, SortOrder::Desc) => a.size >= b.size,
        (SortBy::Size, SortOrder::Asc) => a.size <= b.size,
        (SortBy::Name, SortOrder::Asc) => text_le(
            lowercase_text(a.name@),
            lowercase_text(b.name@),
        ),
        (SortBy::Name, SortOrder::Desc) => text_le(
            lowercase_text(b.name@),
            lowercase_text(a.name@),
        ),
    }
}

/// Whether a way leads from a node down to an entry, each step to a child that is
/// listed, of a directory.
pub open spec fn leads_down(n: Node, way: Seq<int>, opts: RenderOptions) -> bool
    decreases way.len(),
{
    way.len() == 0 || {
        &&& n.is_dir
        &&& 0 <= way[0] < n.children@.len()
        &&& has_a_row(n.children@[way[0]], opts)
        &&& leads_down(n.children@[way[0]], way.skip(1), opts)
    }
}

/// The entry at the end of a way.
pub open spec fn entry_at(n: Node, way: Seq<int>) -> Node
    decreases way.len(),
{
    if way.len() == 0 {
        n
    } else {
        entry_at(n.children@[way[0]], way.skip(1))
    }
}

/// Whether a row shows an entry: it refers to the entry, and says its name, its size
/// and, where that is asked for, when it was modified.
pub open spec fn shows_entry(r: RowView, n: Node, opts: RenderOptions) -> bool {
    &&& r.path == Some(n.path@)
    &&& r.name == n.name@
    &&& r.size == n.size
    &&& r.is_dir == n.is_dir
    &&& !r.is_hidden_summary
    &&& r.line[2].content == n.name@
    &&& r.line[4].content == human_text(n.size)
    &&& opts.show_modified ==> r.line[6].content == modified_text(n.modified)
}

/// Whether `ways` tells for each of some rows below a node which entry it shows.
///
/// Every entry that a way of at most `levels` steps leads to has exactly one row, and
/// every row shows such an entry. A row stands below that of the directory that holds
/// its entry, with nothing between them but what is below that directory. Siblings
/// are in the order that was asked for. A row is indented by one step for each
/// directory between its entry and the node, and has the last branch where no sibling
/// comes after it. A line leads through the indentation from every directory that has
/// not the last branch.
pub open spec fn outlines(
    ways: Seq<Seq<int>>,
    rows: Seq<RowView>,
    n: Node,
    levels: nat,
    opts: RenderOptions,
) -> bool {
    &&& ways.len() == rows.len()
    &&& ways.no_duplicates()
    &&& forall|w: Seq<int>| #[trigger]
        ways.contains(w) <==> 1 <= w.len() <= levels && leads_down(n, w, opts)
    &&& forall|i: int|
        0 <= i < rows.len() ==> shows_entry(#[trigger] rows[i], entry_at(n, ways[i]), opts)
    &&& forall|i: int|
        0 <= i < rows.len() ==> (#[trigger] rows[i]).line[0].content.len() == 4 * (
        ways[i].len() - 1)
    &&& ways.len() > 0 ==> ways[0].len() == 1
    &&& forall|i: int|
        0 < i < ways.len() ==> {
            &&& (#[trigger] ways[i]).len() <= ways[i - 1].len() + 1
            &&& ways[i].drop_last() == ways[i - 1].take(ways[i].len() - 1)
        }
    &&& forall|i: int, j: int|
        0 <= i < j < ways.len() && (#[trigger] ways[i]).drop_last() == (
        #[trigger] ways[j]).drop_last() ==> may_come_first(
            entry_at(n, ways[i]),
            entry_at(n, ways[j]),
            opts.sort,
            opts.sort_order,
        )
    &&& forall|i: int|
        0 <= i < rows.len() ==> (#[trigger] rows[i]).line[1].content == (if exists|j: int|
            i < j < ways.len() && (#[trigger] ways[j]).drop_last() == ways[i].drop_last() {
            "├── "@
        } else {
            "└── "@
        })
    &&& forall|i: int, p: int|
        0 <= i < rows.len() && 0 <= p < rows.len() && ways[p].len() < ways[i].len()
            && ways[i].take(ways[p].len() as int) == ways[p] ==> (
        #[trigger] rows[i]).line[0].content.subrange(
            4 * (ways[p].len() - 1),
            4 * (ways[p].len() as int),
        ) == (if (#[trigger] rows[p]).line[1].content == "├── "@ {
            "│   "@
        } else {
            "    "@
        })
}

// ---------------------------------------------------------------------------
// Sorting
// ---------------------------------------------------------------------------

/// What is picked in a stable order is all there was.
pub(crate) proof fn lemma_order_picks_all<T>(
    s: Seq<T>,
    keys: Seq<crate::order::KeyView>,
    desc: bool,
)
    requires
        keys.len() == s.len(),
    ensures
        picked(s, stable_order(keys, desc)).to_multiset() == s.to_multiset(),
        picked(s, stable_order(keys, desc)).len() == s.len(),
{
    stable_order_sorts(keys, desc);
    lemma_picked_multiset(s, keys, desc, s.len());
    assert(s.take(s.len() as int) =~= s);
}

/// Sorting leaves out nothing and adds nothing, and of two entries the earlier one may
/// come first.
pub proof fn listing_is_sorted(s: Seq<Node>, sort: SortBy, order: SortOrder)
    ensures
        sorted_nodes(s, sort, order).len() == s.len(),
        sorted_nodes(s, sort, order).to_multiset() == s.to_multiset(),
        forall|i: int, j: int|
            0 <= i < j < s.len() ==> may_come_first(
                #[trigger] sorted_nodes(s, sort, order)[i],
                #[trigger] sorted_nodes(s, sort, order)[j],
                sort,
                order,
            ),
{
    let keys = node_keys(s, sort);
    let desc = order == SortOrder::Desc;
    let p = stable_order(keys, desc);
    let t = sorted_nodes(s, sort, order);
    stable_order_sorts(keys, desc);
    assert forall|i: int, j: int| 0 <= i < j < s.len() implies may_come_first(
        #[trigger] t[i],
        #[trigger] t[j],
        sort,
        order,
    ) by {
        assert(precedes(keys, desc, p[i], p[j]));
        assert(keys[p[i]] == crate::display::node_key(s[p[i]], sort));
        assert(keys[p[j]] == crate::display::node_key(s[p[j]], sort));
    }
    lemma_picked_multiset(s, keys, desc, s.len());
    assert(s.take(s.len() as int) =~= s);
}

proof fn lemma_inserted_multiset<T>(
    s: Seq<T>,
    keys: Seq<crate::order::KeyView>,
    desc: bool,
    p: Seq<int>,
    x: int,
)
    ensures
        picked(s, crate::order::with_inserted(keys, desc, p, x)).to_multiset() == picked(
            s,
            p,
        ).to_multiset().insert(s[x]),
    decreases p.len(),
{
    broadcast use vstd::seq_lib::group_to_multiset_ensures;

    let w = crate::order::with_inserted(keys, desc, p, x);
    if p.len() > 0 && precedes(keys, desc, x, p.last()) {
        let f = p.drop_last();
        lemma_inserted_multiset(s, keys, desc, f, x);
        let m = crate::order::with_inserted(keys, desc, f, x);
        assert(picked(s, w) =~= picked(s, m).push(s[p.last()]));
        assert(picked(s, p) =~= picked(s, f).push(s[p.last()]));
        assert(picked(s, w).to_multiset() =~= picked(s, p).to_multiset().insert(s[x]));
    } else {
        assert(picked(s, w) =~= picked(s, p).push(s[x]));
    }
}

proof fn lemma_picked_multiset<T>(
    s: Seq<T>,
    keys: Seq<crate::order::KeyView>,
    desc: bool,
    n: nat,
)
    requires
        n <= s.len(),
    ensures
        picked(s, crate::order::order_upto(keys, desc, n)).to_multiset() == s.take(
            n as int,
        ).to_multiset(),
    decreases n,
{
    broadcast use vstd::seq_lib::group_to_multiset_ensures;

    if n == 0 {
        assert(picked(s, crate::order::order_upto(keys, desc, 0)) =~= s.take(0));
    } else {
        let m = (n - 1) as nat;
        lemma_picked_multiset(s, keys, desc, m);
        lemma_inserted_multiset(s, keys, desc, crate::order::order_upto(keys, desc, m), n - 1);
        assert(s.take(n as int) =~= s.take(m as int).push(s[n - 1]));
    }
}

/// Entries that are equal in what is sorted by stay in their order: the entries are
/// taken from places that differ, and where the later of two could as well come first
/// it was behind the other.
pub proof fn sorting_is_stable(s: Seq<Node>, sort: SortBy, order: SortOrder)
    ensures
        exists|at: Seq<int>|
            {
                &&& at.len() == s.len()
                &&& #[trigger] at.no_duplicates()
                &&& forall|i: int|
                    0 <= i < at.len() ==> 0 <= #[trigger] at[i] < s.len() && sorted_nodes(
                        s,
                        sort,
                        order,
                    )[i] == s[at[i]]
                &&& forall|i: int, j: int|
                    0 <= i < j < at.len() && may_come_first(
                        s[#[trigger] at[j]],
                        s[#[trigger] at[i]],
                        sort,
                        order,
                    ) ==> at[i] < at[j]
            },
{
    let keys = node_keys(s, sort);
    let desc = order == SortOrder::Desc;
    let at = stable_order(keys, desc);
    stable_order_sorts(keys, desc);
    let t = sorted_nodes(s, sort, order);
    assert forall|i: int, j: int|
        0 <= i < j < at.len() && may_come_first(
            s[#[trigger] at[j]],
            s[#[trigger] at[i]],
            sort,
            order,
        ) implies at[i] < at[j] by {
        assert(precedes(keys, desc, at[i], at[j]));
        assert(keys[at[i]] == crate::display::node_key(s[at[i]], sort));
        assert(keys[at[j]] == crate::display::node_key(s[at[j]], sort));
    }
    assert forall|i: int, j: int| 0 <= i < at.len() && 0 <= j < at.len() && i != j implies at[i]
        != at[j] by {
        if i < j {
            assert(precedes(keys, desc, at[i], at[j]));
        } else {
            assert(precedes(keys, desc, at[j], at[i]));
        }
    }
    assert(at.no_duplicates());
}

/// Names are in the order of their first letters that differ, and a name comes before
/// those that it starts.
pub proof fn names_are_in_dictionary_order(a: Seq<char>, b: Seq<char>, k: int)
    requires
        0 <= k <= a.len(),
        k <= b.len(),
        a.take(k) == b.take(k),
    ensures
        k == a.len() ==> text_le(a, b),
        k < a.len() && k == b.len() ==> !text_le(a, b),
        k < a.len() && k < b.len() && a[k] != b[k] ==> (text_le(a, b) <==> a[k] < b[k]),
    decreases k,
{
    if k > 0 {
        assert(a[0] == a.take(k)[0]);
        assert(b[0] == b.take(k)[0]);
        assert(a.drop_first().take(k - 1) =~= a.take(k).drop_first());
        assert(b.drop_first().take(k - 1) =~= b.take(k).drop_first());
        names_are_in_dictionary_order(a.drop_first(), b.drop_first(), k - 1);
    }
}

// ---------------------------------------------------------------------------
// Children
// ---------------------------------------------------------------------------

/// The positions of the items that pass a filter.
spec fn passing<T>(s: Seq<T>, pred: spec_fn(T) -> bool) -> Seq<int>
    decreases s.len(),
{
    if s.len() == 0 {
        Seq::empty()
    } else if pred(s.last()) {
        passing(s.drop_last(), pred).push(s.len() - 1)
    } else {
        passing(s.drop_last(), pred)
    }
}

proof fn lemma_passing<T>(s: Seq<T>, pred: spec_fn(T) -> bool)
    ensures
        picked(s, passing(s, pred)) == s.filter(pred),
        forall|i: int|
            0 <= i < passing(s, pred).len() ==> 0 <= #[trigger] passing(s, pred)[i] < s.len()
                && pred(s[passing(s, pred)[i]]),
        forall|i: int, j: int|
            0 <= i < j < passing(s, pred).len() ==> #[trigger] passing(s, pred)[i]
                < #[trigger] passing(s, pred)[j],
        forall|i: int|
            0 <= i < s.len() && #[trigger] pred(s[i]) ==> passing(s, pred).contains(i),
    decreases s.len(),
{
    reveal(Seq::filter);
    if s.len() > 0 {
        let d = s.drop_last();
        lemma_passing(d, pred);
        let q = passing(d, pred);
        let p = passing(s, pred);
        assert(picked(d, q) =~= picked(s, q)) by {
            assert forall|i: int| 0 <= i < q.len() implies d[q[i]] == s[q[i]] by {
                assert(0 <= q[i] < d.len());
            }
        }
        if pred(s.last()) {
            assert(picked(s, p) =~= picked(s, q).push(s.last()));
        }
        assert forall|i: int| 0 <= i < p.len() implies 0 <= #[trigger] p[i] < s.len() && pred(
            s[p[i]],
        ) by {
            if i < q.len() {
                assert(p[i] == q[i]);
                assert(d[q[i]] == s[q[i]]);
            }
        }
        assert forall|i: int| 0 <= i < s.len() && #[trigger] pred(s[i]) implies p.contains(i) by {
            if i < d.len() {
                assert(d[i] == s[i]);
                assert(pred(d[i]));
                assert(q.contains(i));
                let k = choose|k: int| 0 <= k < q.len() && q[k] == i;
                assert(p[k] == i);
            } else {
                assert(p[p.len() - 1] == i);
            }
        }
    } else {
        assert(picked(s, passing(s, pred)) =~= s.filter(pred));
    }
}

/// The positions of the listed children, in the order in which they are listed.
spec fn places(n: Node, opts: RenderOptions) -> Seq<int> {
    let all = passing(n.children@, |c: Node| listed(c, opts));
    picked(
        all,
        stable_order(
            node_keys(listed_children(n, opts), opts.sort),
            opts.sort_order == SortOrder::Desc,
        ),
    )
}

proof fn lemma_places(n: Node, opts: RenderOptions)
    ensures
        picked(n.children@, places(n, opts)) == ordered_children(n, opts),
        places(n, opts).no_duplicates(),
        forall|c: int| #[trigger]
            places(n, opts).contains(c) <==> 0 <= c < n.children@.len() && has_a_row(
                n.children@[c],
                opts,
            ),
        forall|i: int, j: int|
            0 <= i < j < places(n, opts).len() ==> may_come_first(
                n.children@[#[trigger] places(n, opts)[i]],
                n.children@[#[trigger] places(n, opts)[j]],
                opts.sort,
                opts.sort_order,
            ),
{
    let s = n.children@;
    let pred = |c: Node| listed(c, opts);
    let all = passing(s, pred);
    let t = listed_children(n, opts);
    let keys = node_keys(t, opts.sort);
    let desc = opts.sort_order == SortOrder::Desc;
    let p = stable_order(keys, desc);
    let q = places(n, opts);
    lemma_passing(s, pred);
    stable_order_sorts(keys, desc);
    assert(all.len() == t.len()) by {
        assert(picked(s, all).len() == all.len());
    }
    assert forall|i: int| 0 <= i < p.len() implies s[q[i]] == t[p[i]] by {
        assert(0 <= p[i] < all.len());
        assert(picked(s, all)[p[i]] == s[all[p[i]]]);
    }
    assert(picked(s, q) =~= ordered_children(n, opts));
    assert forall|i: int, j: int| 0 <= i < q.len() && 0 <= j < q.len() && i != j implies q[i]
        != q[j] by {
        assert(p[i] != p[j]) by {
            if i < j {
                assert(precedes(keys, desc, p[i], p[j]));
            } else {
                assert(precedes(keys, desc, p[j], p[i]));
            }
        }
        if p[i] < p[j] {
            assert(all[p[i]] < all[p[j]]);
        } else {
            assert(all[p[j]] < all[p[i]]);
        }
    }
    assert forall|c: int| #[trigger] q.contains(c) <==> 0 <= c < s.len() && has_a_row(
        s[c],
        opts,
    ) by {
        if q.contains(c) {
            let i = choose|i: int| 0 <= i < q.len() && q[i] == c;
            assert(0 <= p[i] < all.len());
            assert(all[p[i]] == c);
        }
        if 0 <= c < s.len() && has_a_row(s[c], opts) {
            assert(pred(s[c]));
            assert(all.contains(c));
            let k = choose|k: int| 0 <= k < all.len() && all[k] == c;
            assert(p.contains(k));
            let i = choose|i: int| 0 <= i < p.len() && p[i] == k;
            assert(q[i] == c);
        }
    }
    listing_is_sorted(t, opts.sort, opts.sort_order);
    let o = ordered_children(n, opts);
    assert forall|i: int, j: int| 0 <= i < j < q.len() implies may_come_first(
        s[#[trigger] q[i]],
        s[#[trigger] q[j]],
        opts.sort,
        opts.sort_order,
    ) by {
        assert(o[i] == s[q[i]] && o[j] == s[q[j]]);
        assert(may_come_first(o[i], o[j], opts.sort, opts.sort_order));
    }
}

// ---------------------------------------------------------------------------
// Ways
// ---------------------------------------------------------------------------

spec fn behind(c: int, ws: Seq<Seq<int>>) -> Seq<Seq<int>> {
    ws.map_values(|w: Seq<int>| seq![c] + w)
}

/// The ways to the entries below a node, in the order of their rows.
spec fn ways_below(n: Node, levels: nat, opts: RenderOptions) -> Seq<Seq<int>>
    decreases levels, 1nat, 0nat,
{
    if levels == 0 {
        Seq::empty()
    } else {
        ways_of_first(n, places(n, opts).len(), levels, opts)
    }
}

/// The ways over the first `k` of the listed children.
spec fn ways_of_first(n: Node, k: nat, levels: nat, opts: RenderOptions) -> Seq<Seq<int>>
    decreases levels, 0nat, k,
{
    if k == 0 || levels == 0 {
        Seq::empty()
    } else {
        let c = places(n, opts)[k - 1];
        ways_of_first(n, (k - 1) as nat, levels, opts).push(seq![c]) + (if n.children@[c].is_dir {
            behind(c, ways_below(n.children@[c], (levels - 1) as nat, opts))
        } else {
            Seq::empty()
        })
    }
}

/// A way that goes on behind a first step.
proof fn lemma_step(n: Node, c: int, w: Seq<int>, opts: RenderOptions)
    ensures
        (seq![c] + w).skip(1) == w,
        entry_at(n, seq![c] + w) == entry_at(n.children@[c], w),
        leads_down(n, seq![c] + w, opts) <==> n.is_dir && 0 <= c < n.children@.len() && has_a_row(
            n.children@[c],
            opts,
        ) && leads_down(n.children@[c], w, opts),
        w.len() > 0 ==> (seq![c] + w).drop_last() == seq![c] + w.drop_last(),
        w.len() > 0 ==> (seq![c] + w).last() == w.last(),
{
    assert((seq![c] + w).skip(1) =~= w);
    if w.len() > 0 {
        assert((seq![c] + w).drop_last() =~= seq![c] + w.drop_last());
    }
}

/// A way that goes on by a last step.
proof fn lemma_last_step(n: Node, u: Seq<int>, c: int, opts: RenderOptions)
    ensures
        entry_at(n, u.push(c)) == entry_at(n, u).children@[c],
        leads_down(n, u.push(c), opts) <==> {
            let d = entry_at(n, u);
            leads_down(n, u, opts) && d.is_dir && 0 <= c < d.children@.len() && has_a_row(
                d.children@[c],
                opts,
            )
        },
    decreases u.len(),
{
    if u.len() == 0 {
        assert(u.push(c).skip(1) =~= Seq::<int>::empty());
        assert(entry_at(n.children@[c], u.push(c).skip(1)) == n.children@[c]);
        assert(leads_down(n.children@[c], u.push(c).skip(1), opts));
    } else {
        assert(u.push(c).skip(1) =~= u.skip(1).push(c));
        lemma_last_step(n.children@[u[0]], u.skip(1), c, opts);
    }
}

/// The ways over the first `k` children are those that lead down over them, once each.
proof fn lemma_ways(n: Node, k: nat, levels: nat, opts: RenderOptions)
    requires
        n.is_dir,
        k <= places(n, opts).len(),
    ensures
        ({
            let ws = ways_of_first(n, k, levels, opts);
            &&& ws.no_duplicates()
            &&& forall|w: Seq<int>| #[trigger]
                ws.contains(w) <==> 1 <= w.len() <= levels && leads_down(n, w, opts) && places(
                    n,
                    opts,
                ).take(k as int).contains(w[0])
        }),
    decreases levels, k,
{
    let ps = places(n, opts);
    let ws = ways_of_first(n, k, levels, opts);
    lemma_places(n, opts);
    if k == 0 || levels == 0 {
        assert(ps.take(0) =~= Seq::<int>::empty());
    } else {
        let c = ps[k - 1];
        let child = n.children@[c];
        let a = ways_of_first(n, (k - 1) as nat, levels, opts);
        let b = if child.is_dir {
            ways_below(child, (levels - 1) as nat, opts)
        } else {
            Seq::empty()
        };
        lemma_ways(n, (k - 1) as nat, levels, opts);
        if child.is_dir && levels > 1 {
            lemma_ways(child, places(child, opts).len(), (levels - 1) as nat, opts);
            assert(places(child, opts).take(places(child, opts).len() as int) =~= places(
                child,
                opts,
            ));
        }
        assert(ws =~= a.push(seq![c]) + behind(c, b));
        assert(ps.contains(c));
        let before = ps.take(k - 1);
        assert(!before.contains(c)) by {
            if before.contains(c) {
                let i = choose|i: int| 0 <= i < before.len() && before[i] == c;
                assert(ps[i] == ps[k - 1]);
            }
        }
        assert forall|x: int| #[trigger] ps.take(k as int).contains(x) <==> before.contains(x) || x
            == c by {
            if ps.take(k as int).contains(x) {
                let i = choose|i: int| 0 <= i < k && ps.take(k as int)[i] == x;
                if i < k - 1 {
                    assert(before[i] == x);
                }
            }
            if before.contains(x) {
                let i = choose|i: int| 0 <= i < before.len() && before[i] == x;
                assert(ps.take(k as int)[i] == x);
            }
            if x == c {
                assert(ps.take(k as int)[k - 1] == x);
            }
        }
        assert forall|i: int| 0 <= i < b.len() implies 1 <= (#[trigger] b[i]).len() <= levels - 1
            && leads_down(child, b[i], opts) by {
            assert(b.contains(b[i]));
            if levels > 1 {
                assert(ways_below(child, (levels - 1) as nat, opts).contains(b[i]));
            }
        }
        assert forall|w: Seq<int>| #[trigger] ws.contains(w) <==> 1 <= w.len() <= levels
            && leads_down(n, w, opts) && ps.take(k as int).contains(w[0]) by {
            if ws.contains(w) {
                let i = choose|i: int| 0 <= i < ws.len() && ws[i] == w;
                if i < a.len() {
                    assert(a[i] == w);
                    assert(a.contains(w));
                } else if i == a.len() {
                    assert(w == seq![c]);
                    lemma_step(n, c, Seq::empty(), opts);
                    assert(seq![c] + Seq::<int>::empty() =~= seq![c]);
                } else {
                    let v = b[i - a.len() - 1];
                    assert(w == seq![c] + v);
                    lemma_step(n, c, v, opts);
                }
            }
            if 1 <= w.len() <= levels && leads_down(n, w, opts) && ps.take(k as int).contains(
                w[0],
            ) {
                if before.contains(w[0]) {
                    assert(a.contains(w));
                    let i = choose|i: int| 0 <= i < a.len() && a[i] == w;
                    assert(ws[i] == w);
                } else if w.len() == 1 {
                    assert(w =~= seq![c]);
                    assert(ws[a.len() as int] == w);
                } else {
                    let v = w.skip(1);
                    assert(w =~= seq![c] + v);
                    assert(leads_down(child, v, opts));
                    assert(child.is_dir);
                    assert(0 <= v[0] < child.children@.len() && has_a_row(
                        child.children@[v[0]],
                        opts,
                    ));
                    lemma_places(child, opts);
                    assert(places(child, opts).contains(v[0]));
                    assert(b.contains(v));
                    let i = choose|i: int| 0 <= i < b.len() && b[i] == v;
                    assert(ws[a.len() + 1 + i] == w);
                }
            }
        }
        assert forall|i: int, j: int| 0 <= i < j < ws.len() implies ws[i] != ws[j] by {
            if j < a.len() {
                assert(a[i] != a[j]);
            } else if i < a.len() {
                assert(a.contains(a[i]));
                assert(before.contains(a[i][0]));
                assert(ws[j][0] == c);
            } else if i == a.len() {
                assert(ws[i].len() == 1);
                assert(ws[j] == seq![c] + b[j - a.len() - 1]);
                assert(ws[j].len() >= 2);
            } else {
                let v = b[i - a.len() - 1];
                let w = b[j - a.len() - 1];
                assert(v != w) by {
                    if levels > 1 && child.is_dir {
                        assert(ways_below(child, (levels - 1) as nat, opts).no_duplicates());
                    }
                }
                if ws[i] == ws[j] {
                    lemma_step(n, c, v, opts);
                    lemma_step(n, c, w, opts);
                }
            }
        }
    }
}

/// The ways are in the order of a walk that goes down first.
proof fn lemma_walk(n: Node, k: nat, levels: nat, opts: RenderOptions)
    requires
        n.is_dir,
        k <= places(n, opts).len(),
    ensures
        ({
            let ws = ways_of_first(n, k, levels, opts);
            &&& ws.len() > 0 ==> ws[0].len() == 1
            &&& forall|i: int| 0 <= i < ws.len() ==> (#[trigger] ws[i]).len() >= 1
            &&& forall|i: int|
                0 < i < ws.len() ==> {
                    &&& (#[trigger] ws[i]).len() <= ws[i - 1].len() + 1
                    &&& ws[i].drop_last() == ws[i - 1].take(ws[i].len() - 1)
                }
        }),
    decreases levels, k,
{
    if k == 0 || levels == 0 {
    } else {
        let ws = ways_of_first(n, k, levels, opts);
        let c = places(n, opts)[k - 1];
        let child = n.children@[c];
        let a = ways_of_first(n, (k - 1) as nat, levels, opts);
        let b = if child.is_dir {
            ways_below(child, (levels - 1) as nat, opts)
        } else {
            Seq::empty()
        };
        lemma_walk(n, (k - 1) as nat, levels, opts);
        if child.is_dir && levels > 1 {
            lemma_walk(child, places(child, opts).len(), (levels - 1) as nat, opts);
        }
        assert(ws =~= a.push(seq![c]) + behind(c, b));
        assert forall|i: int| 0 <= i < ws.len() implies (#[trigger] ws[i]).len() >= 1 by {
            if i < a.len() {
                assert(ws[i] == a[i]);
            }
        }
        assert forall|i: int| 0 < i < ws.len() implies (#[trigger] ws[i]).len() <= ws[i - 1].len()
            + 1 && ws[i].drop_last() == ws[i - 1].take(ws[i].len() - 1) by {
            if i < a.len() {
                assert(ws[i] == a[i] && ws[i - 1] == a[i - 1]);
            } else if i == a.len() {
                assert(ws[i] == seq![c]);
                assert(ws[i - 1] == a[i - 1]);
                assert(ws[i].drop_last() =~= ws[i - 1].take(0));
            } else {
                let w = b[i - a.len() - 1];
                assert(ws[i] == seq![c] + w);
                lemma_step(n, c, w, opts);
                if i == a.len() + 1 {
                    assert(ws[i - 1] == seq![c]);
                    assert(w.len() == 1);
                    assert(ws[i].drop_last() =~= ws[i - 1].take(1));
                } else {
                    let v = b[i - a.len() - 2];
                    assert(ws[i - 1] == seq![c] + v);
                    assert(w.len() <= v.len() + 1 && w.drop_last() == v.take(w.len() - 1));
                    assert(ws[i].drop_last() =~= ws[i - 1].take(ws[i].len() - 1));
                }
            }
        }
    }
}

/// Whether of two siblings the first is listed above the second.
spec fn in_places(d: Node, x: int, y: int, opts: RenderOptions) -> bool {
    exists|a: int, b: int|
        0 <= a < b < places(d, opts).len() && #[trigger] places(d, opts)[a] == x
            && #[trigger] places(d, opts)[b] == y
}

/// Siblings are in the order of their places.
proof fn lemma_siblings(n: Node, k: nat, levels: nat, opts: RenderOptions)
    requires
        n.is_dir,
        k <= places(n, opts).len(),
    ensures
        ({
            let ws = ways_of_first(n, k, levels, opts);
            forall|i: int, j: int|
                0 <= i < j < ws.len() && (#[trigger] ws[i]).drop_last() == (
                #[trigger] ws[j]).drop_last() ==> in_places(
                    entry_at(n, ws[i].drop_last()),
                    ws[i].last(),
                    ws[j].last(),
                    opts,
                )
        }),
    decreases levels, k,
{
    if k == 0 || levels == 0 {
    } else {
        let ps = places(n, opts);
        let ws = ways_of_first(n, k, levels, opts);
        let c = ps[k - 1];
        let child = n.children@[c];
        let a = ways_of_first(n, (k - 1) as nat, levels, opts);
        let b = if child.is_dir {
            ways_below(child, (levels - 1) as nat, opts)
        } else {
            Seq::empty()
        };
        lemma_siblings(n, (k - 1) as nat, levels, opts);
        lemma_ways(n, (k - 1) as nat, levels, opts);
        lemma_walk(n, (k - 1) as nat, levels, opts);
        lemma_places(n, opts);
        if child.is_dir && levels > 1 {
            lemma_siblings(child, places(child, opts).len(), (levels - 1) as nat, opts);
            lemma_walk(child, places(child, opts).len(), (levels - 1) as nat, opts);
        }
        assert(ws =~= a.push(seq![c]) + behind(c, b));
        let before = ps.take(k - 1);
        assert forall|i: int, j: int|
            0 <= i < j < ws.len() && (#[trigger] ws[i]).drop_last() == (
            #[trigger] ws[j]).drop_last() implies in_places(
            entry_at(n, ws[i].drop_last()),
            ws[i].last(),
            ws[j].last(),
            opts,
        ) by {
            if j < a.len() {
                assert(ws[i] == a[i] && ws[j] == a[j]);
            } else if i < a.len() {
                assert(ws[i] == a[i]);
                assert(a.contains(a[i]));
                assert(before.contains(a[i][0]));
                let x = choose|x: int| 0 <= x < before.len() && before[x] == a[i][0];
                assert(ps[x] == a[i][0]);
                if j == a.len() {
                    assert(ws[j] == seq![c]);
                    assert(ws[j].drop_last().len() == 0);
                    assert(a[i].len() == 1);
                    assert(ws[i].drop_last() =~= Seq::<int>::empty());
                    assert(entry_at(n, ws[i].drop_last()) == n);
                    assert(ps[x] == ws[i].last() && ps[k - 1] == ws[j].last());
                } else {
                    let w = b[j - a.len() - 1];
                    assert(ws[j] == seq![c] + w);
                    lemma_step(n, c, w, opts);
                    assert(ws[j].drop_last()[0] == c);
                    assert(ws[i].drop_last()[0] == a[i][0]);
                    assert(ps[x] == ps[k - 1]);
                }
            } else if i == a.len() {
                let w = b[j - a.len() - 1];
                assert(ws[j] == seq![c] + w);
                lemma_step(n, c, w, opts);
                assert(ws[i].drop_last().len() == 0);
                assert(ws[j].drop_last().len() >= 1);
            } else {
                let v = b[i - a.len() - 1];
                let w = b[j - a.len() - 1];
                assert(ws[i] == seq![c] + v && ws[j] == seq![c] + w);
                lemma_step(n, c, v, opts);
                lemma_step(n, c, w, opts);
                assert(v.drop_last() =~= (seq![c] + v.drop_last()).skip(1));
                assert(w.drop_last() =~= (seq![c] + w.drop_last()).skip(1));
                assert(v.drop_last() == w.drop_last());
                lemma_step(n, c, v.drop_last(), opts);
                assert(in_places(entry_at(child, v.drop_last()), v.last(), w.last(), opts));
            }
        }
    }
}

proof fn lemma_indent_len(more: Seq<bool>)
    ensures
        indent(more).len() == 4 * more.len(),
    decreases more.len(),
{
    reveal_strlit("│   ");
    reveal_strlit("    ");
    if more.len() > 0 {
        lemma_indent_len(more.drop_last());
    }
}

/// Whether a row shows the entry at the end of a way below ancestors of which there
/// are `above`.
spec fn row_fits(r: RowView, n: Node, w: Seq<int>, above: nat, opts: RenderOptions) -> bool {
    let d = entry_at(n, w.drop_last());
    &&& shows_entry(r, entry_at(n, w), opts)
    &&& r.line[0].content.len() == 4 * (above + w.len() - 1)
    &&& places(d, opts).len() > 0
    &&& r.line[1].content == (if w.last() == places(d, opts).last() {
        "└── "@
    } else {
        "├── "@
    })
}

/// Each row shows the entry at the end of its way.
proof fn lemma_rows(n: Node, k: nat, depth: nat, more: Seq<bool>, opts: RenderOptions)
    requires
        n.is_dir,
        k <= places(n, opts).len(),
        depth <= opts.depth,
    ensures
        ({
            let ws = ways_of_first(n, k, (opts.depth - depth) as nat, opts);
            let rows = rows_of_first(ordered_children(n, opts), k, depth, more, opts);
            &&& ws.len() == rows.len()
            &&& forall|i: int|
                0 <= i < rows.len() ==> row_fits(#[trigger] rows[i], n, ws[i], more.len(), opts)
        }),
    decreases opts.depth - depth, k,
{
    if k == 0 || depth == opts.depth {
    } else {
        let items = ordered_children(n, opts);
        let levels = (opts.depth - depth) as nat;
        let ps = places(n, opts);
        let ws = ways_of_first(n, k, levels, opts);
        let rows = rows_of_first(items, k, depth, more, opts);
        let c = ps[k - 1];
        let child = n.children@[c];
        lemma_places(n, opts);
        assert(items.len() == ps.len()) by {
            assert(picked(n.children@, ps).len() == ps.len());
        }
        assert(items[k - 1] == child) by {
            assert(picked(n.children@, ps)[k - 1] == n.children@[ps[k - 1]]);
        }
        let last = k == items.len();
        assert(last == (c == ps.last())) by {
            if c == ps.last() && !last {
                assert(ps[k - 1] == ps[ps.len() - 1]);
            }
        }
        let a = ways_of_first(n, (k - 1) as nat, levels, opts);
        let ra = rows_of_first(items, (k - 1) as nat, depth, more, opts);
        lemma_rows(n, (k - 1) as nat, depth, more, opts);
        let b = if child.is_dir {
            ways_below(child, (levels - 1) as nat, opts)
        } else {
            Seq::empty()
        };
        let rb = if child.is_dir {
            rows_below(child, depth + 1, more.push(!last), opts)
        } else {
            Seq::empty()
        };
        if child.is_dir && levels > 1 {
            lemma_rows(child, places(child, opts).len(), depth + 1, more.push(!last), opts);
            lemma_walk(child, places(child, opts).len(), (levels - 1) as nat, opts);
            lemma_places(child, opts);
            assert(ordered_children(child, opts).len() == places(child, opts).len()) by {
                assert(picked(child.children@, places(child, opts)).len() == places(
                    child,
                    opts,
                ).len());
            }
        }
        assert(b.len() == rb.len());
        assert(ws =~= a.push(seq![c]) + behind(c, b));
        let own = child_row(child, last, more, opts);
        assert(rows =~= ra.push(own) + rb);
        assert forall|i: int| 0 <= i < rows.len() implies row_fits(
            #[trigger] rows[i],
            n,
            ws[i],
            more.len(),
            opts,
        ) by {
            if i < ra.len() {
                assert(rows[i] == ra[i] && ws[i] == a[i]);
            } else if i == ra.len() {
                assert(rows[i] == own && ws[i] == seq![c]);
                lemma_indent_len(more);
                assert(seq![c].skip(1) =~= Seq::<int>::empty());
                assert(entry_at(child, seq![c].skip(1)) == child);
                assert(entry_at(n, seq![c]) == child);
                assert(seq![c].drop_last() =~= Seq::<int>::empty());
                assert(entry_at(n, seq![c].drop_last()) == n);
                lemma_own_row(child, last, more, opts);
            } else {
                let w = b[i - ra.len() - 1];
                assert(rows[i] == rb[i - ra.len() - 1]);
                assert(ws[i] == seq![c] + w);
                assert(row_fits(rb[i - ra.len() - 1], child, w, more.len() + 1, opts));
                lemma_step(n, c, w, opts);
                assert(w.len() >= 1);
                lemma_step(n, c, w.drop_last(), opts);
            }
        }
    }
}

proof fn lemma_own_row(c: Node, last: bool, more: Seq<bool>, opts: RenderOptions)
    ensures
        shows_entry(child_row(c, last, more, opts), c, opts),
        child_row(c, last, more, opts).line[0].content == indent(more),
        child_row(c, last, more, opts).line[1].content == (if last {
            "└── "@
        } else {
            "├── "@
        }),
{
}

/// Of which entries on a way, but for the last, a sibling comes later.
spec fn goes_on(n: Node, w: Seq<int>, opts: RenderOptions) -> Seq<bool> {
    Seq::new(
        (w.len() - 1) as nat,
        |l: int| w[l] != places(entry_at(n, w.take(l)), opts).last(),
    )
}

/// The indentation of a row tells of which entries on its way a sibling comes later.
proof fn lemma_guides(n: Node, k: nat, depth: nat, more: Seq<bool>, opts: RenderOptions)
    requires
        n.is_dir,
        k <= places(n, opts).len(),
        depth <= opts.depth,
    ensures
        ({
            let ws = ways_of_first(n, k, (opts.depth - depth) as nat, opts);
            let rows = rows_of_first(ordered_children(n, opts), k, depth, more, opts);
            &&& ws.len() == rows.len()
            &&& forall|i: int|
                0 <= i < rows.len() ==> (#[trigger] rows[i]).line[0].content == indent(
                    more + goes_on(n, ws[i], opts),
                )
        }),
    decreases opts.depth - depth, k,
{
    if k == 0 || depth == opts.depth {
    } else {
        let items = ordered_children(n, opts);
        let levels = (opts.depth - depth) as nat;
        let ps = places(n, opts);
        let ws = ways_of_first(n, k, levels, opts);
        let rows = rows_of_first(items, k, depth, more, opts);
        let c = ps[k - 1];
        let child = n.children@[c];
        lemma_places(n, opts);
        assert(items.len() == ps.len()) by {
            assert(picked(n.children@, ps).len() == ps.len());
        }
        assert(items[k - 1] == child) by {
            assert(picked(n.children@, ps)[k - 1] == n.children@[ps[k - 1]]);
        }
        let last = k == items.len();
        assert(last == (c == ps.last())) by {
            if c == ps.last() && !last {
                assert(ps[k - 1] == ps[ps.len() - 1]);
            }
        }
        let a = ways_of_first(n, (k - 1) as nat, levels, opts);
        let ra = rows_of_first(items, (k - 1) as nat, depth, more, opts);
        lemma_guides(n, (k - 1) as nat, depth, more, opts);
        let b = if child.is_dir {
            ways_below(child, (levels - 1) as nat, opts)
        } else {
            Seq::empty()
        };
        let rb = if child.is_dir {
            rows_below(child, depth + 1, more.push(!last), opts)
        } else {
            Seq::empty()
        };
        if child.is_dir && levels > 1 {
            lemma_guides(child, places(child, opts).len(), depth + 1, more.push(!last), opts);
            lemma_walk(child, places(child, opts).len(), (levels - 1) as nat, opts);
            lemma_places(child, opts);
            assert(ordered_children(child, opts).len() == places(child, opts).len()) by {
                assert(picked(child.children@, places(child, opts)).len() == places(
                    child,
                    opts,
                ).len());
            }
        }
        assert(b.len() == rb.len());
        assert(ws =~= a.push(seq![c]) + behind(c, b));
        let own = child_row(child, last, more, opts);
        assert(rows =~= ra.push(own) + rb);
        assert forall|i: int| 0 <= i < rows.len() implies (#[trigger] rows[i]).line[0].content
            == indent(more + goes_on(n, ws[i], opts)) by {
            if i < ra.len() {
                assert(rows[i] == ra[i] && ws[i] == a[i]);
            } else if i == ra.len() {
                assert(rows[i] == own && ws[i] == seq![c]);
                assert(more + goes_on(n, seq![c], opts) =~= more);
                lemma_own_row(child, last, more, opts);
            } else {
                let v = b[i - ra.len() - 1];
                let w = seq![c] + v;
                assert(rows[i] == rb[i - ra.len() - 1]);
                assert(ws[i] == w);
                assert(v.len() >= 1);
                let (x, y) = (goes_on(child, v, opts), goes_on(n, w, opts));
                assert forall|l: int| 0 <= l < y.len() implies #[trigger] y[l] == (if l == 0 {
                    !last
                } else {
                    x[l - 1]
                }) by {
                    if l == 0 {
                        assert(w.take(0) =~= Seq::<int>::empty());
                    } else {
                        assert(w.take(l) =~= seq![c] + v.take(l - 1));
                        assert((seq![c] + v.take(l - 1)).skip(1) =~= v.take(l - 1));
                        assert(entry_at(n, w.take(l)) == entry_at(child, v.take(l - 1)));
                    }
                }
                assert(more.push(!last) + x =~= more + y);
            }
        }
    }
}

proof fn lemma_guide(more: Seq<bool>, l: int)
    requires
        0 <= l < more.len(),
    ensures
        indent(more).subrange(4 * l, 4 * (l + 1)) == (if more[l] {
            "│   "@
        } else {
            "    "@
        }),
    decreases more.len(),
{
    reveal_strlit("│   ");
    reveal_strlit("    ");
    let d = more.drop_last();
    lemma_indent_len(d);
    lemma_indent_len(more);
    let s = indent(more).subrange(4 * l, 4 * (l + 1));
    if l == more.len() - 1 {
        assert(s =~= (if more[l] {
            "│   "@
        } else {
            "    "@
        }));
    } else {
        lemma_guide(d, l);
        assert(s =~= indent(d).subrange(4 * l, 4 * (l + 1)));
    }
}

/// A line leads through the indentation from every entry on the way that has not the last
/// branch.
proof fn lemma_lines(n: Node, opts: RenderOptions, i: int, p: int)
    requires
        n.is_dir,
        ({
            let ways = ways_of_first(n, places(n, opts).len(), opts.depth as nat, opts);
            &&& 0 <= i < ways.len()
            &&& 0 <= p < ways.len()
            &&& ways[p].len() < ways[i].len()
            &&& ways[i].take(ways[p].len() as int) == ways[p]
        }),
    ensures
        ({
            let ways = ways_of_first(n, places(n, opts).len(), opts.depth as nat, opts);
            let rows = rows_of_first(
                ordered_children(n, opts),
                places(n, opts).len(),
                0,
                Seq::empty(),
                opts,
            );
            &&& rows.len() == ways.len()
            &&& rows[i].line[0].content.subrange(
                4 * (ways[p].len() - 1),
                4 * (ways[p].len() as int),
            ) == (if rows[p].line[1].content == "├── "@ {
                "│   "@
            } else {
                "    "@
            })
        }),
{
    let k = places(n, opts).len();
    let ways = ways_of_first(n, k, opts.depth as nat, opts);
    let rows = rows_of_first(ordered_children(n, opts), k, 0, Seq::empty(), opts);
    lemma_guides(n, k, 0, Seq::empty(), opts);
    lemma_rows(n, k, 0, Seq::empty(), opts);
    lemma_walk(n, k, opts.depth as nat, opts);
    let (w, v) = (ways[i], ways[p]);
    let l = v.len() - 1;
    let m = goes_on(n, w, opts);
    assert(Seq::<bool>::empty() + m =~= m);
    assert(v.len() >= 1);
    lemma_guide(m, l);
    assert(v.drop_last() =~= w.take(l));
    assert(v.last() == w[l]);
    assert(row_fits(rows[p], n, v, 0, opts));
    reveal_strlit("├── ");
    reveal_strlit("└── ");
    assert("├── "@[0] != "└── "@[0]);
}

/// The rows below a directory outline what is in it, down to the depth that was asked
/// for.
#[verifier::rlimit(40)]
pub proof fn rows_outline_the_tree(n: Node, opts: RenderOptions)
    requires
        n.is_dir,
    ensures
        exists|ways: Seq<Seq<int>>|
            #[trigger] outlines(
                ways,
                rows_below(n, 0, Seq::empty(), opts),
                n,
                opts.depth as nat,
                opts,
            ),
{
    let levels = opts.depth as nat;
    let ps = places(n, opts);
    let k = ps.len();
    let ways = ways_of_first(n, k, levels, opts);
    let rows = rows_below(n, 0, Seq::empty(), opts);
    lemma_places(n, opts);
    assert(ordered_children(n, opts).len() == k) by {
        assert(picked(n.children@, ps).len() == ps.len());
    }
    lemma_rows(n, k, 0, Seq::empty(), opts);
    lemma_ways(n, k, levels, opts);
    lemma_walk(n, k, levels, opts);
    lemma_siblings(n, k, levels, opts);
    assert(ps.take(k as int) =~= ps);
    assert(rows == rows_of_first(ordered_children(n, opts), k, 0, Seq::empty(), opts) || levels
        == 0);
    assert forall|w: Seq<int>| #[trigger] ways.contains(w) <==> 1 <= w.len() <= levels
        && leads_down(n, w, opts) by {
        if 1 <= w.len() && leads_down(n, w, opts) {
            assert(ps.contains(w[0]));
        }
    }
    assert forall|i: int| 0 <= i < ways.len() implies ways.contains(#[trigger] ways[i]) by {}
    assert forall|i: int, j: int|
        0 <= i < j < ways.len() && (#[trigger] ways[i]).drop_last() == (
        #[trigger] ways[j]).drop_last() implies may_come_first(
        entry_at(n, ways[i]),
        entry_at(n, ways[j]),
        opts.sort,
        opts.sort_order,
    ) by {
        let u = ways[i].drop_last();
        let d = entry_at(n, u);
        lemma_last_step(n, u, ways[i].last(), opts);
        lemma_last_step(n, u, ways[j].last(), opts);
        assert(u.push(ways[i].last()) =~= ways[i]);
        assert(u.push(ways[j].last()) =~= ways[j]);
        lemma_places(d, opts);
        assert(in_places(d, ways[i].last(), ways[j].last(), opts));
    }
    assert forall|i: int| 0 <= i < rows.len() implies (#[trigger] rows[i]).line[1].content == (
    if exists|j: int|
        i < j < ways.len() && (#[trigger] ways[j]).drop_last() == ways[i].drop_last() {
        "├── "@
    } else {
        "└── "@
    }) by {
        lemma_branch(n, levels, opts, i);
        assert(row_fits(rows[i], n, ways[i], 0, opts));
    }
    assert forall|i: int| 0 <= i < rows.len() implies (#[trigger] rows[i]).line[0].content.len()
        == 4 * (ways[i].len() - 1) && shows_entry(rows[i], entry_at(n, ways[i]), opts) by {
        assert(row_fits(rows[i], n, ways[i], 0, opts));
    }
    assert forall|i: int, p: int|
        0 <= i < rows.len() && 0 <= p < rows.len() && ways[p].len() < ways[i].len()
            && ways[i].take(ways[p].len() as int) == ways[p] implies (
    #[trigger] rows[i]).line[0].content.subrange(
        4 * (ways[p].len() - 1),
        4 * (ways[p].len() as int),
    ) == (if (#[trigger] rows[p]).line[1].content == "├── "@ {
        "│   "@
    } else {
        "    "@
    }) by {
        lemma_lines(n, opts, i, p);
    }
    assert(outlines(ways, rows, n, levels, opts));
}

/// A sibling comes after an entry unless it has the last place.
proof fn lemma_branch(n: Node, levels: nat, opts: RenderOptions, i: int)
    requires
        n.is_dir,
        0 <= i < ways_of_first(n, places(n, opts).len(), levels, opts).len(),
    ensures
        ({
            let ways = ways_of_first(n, places(n, opts).len(), levels, opts);
            let d = entry_at(n, ways[i].drop_last());
            (exists|j: int|
                i < j < ways.len() && (#[trigger] ways[j]).drop_last() == ways[i].drop_last())
                <==> ways[i].last() != places(d, opts).last()
        }),
{
    let ps = places(n, opts);
    let ways = ways_of_first(n, ps.len(), levels, opts);
    let u = ways[i].drop_last();
    let d = entry_at(n, u);
    let qs = places(d, opts);
    lemma_places(n, opts);
    lemma_places(d, opts);
    lemma_ways(n, ps.len(), levels, opts);
    lemma_walk(n, ps.len(), levels, opts);
    lemma_siblings(n, ps.len(), levels, opts);
    assert(ps.take(ps.len() as int) =~= ps);
    assert(ways.contains(ways[i]));
    lemma_last_step(n, u, ways[i].last(), opts);
    assert(u.push(ways[i].last()) =~= ways[i]);
    assert(qs.contains(ways[i].last()));
    if exists|j: int| i < j < ways.len() && (#[trigger] ways[j]).drop_last() == u {
        let j = choose|j: int| i < j < ways.len() && (#[trigger] ways[j]).drop_last() == u;
        assert(in_places(d, ways[i].last(), ways[j].last(), opts));
        let (a, b) = choose|a: int, b: int|
            0 <= a < b < qs.len() && #[trigger] qs[a] == ways[i].last() && #[trigger] qs[b]
                == ways[j].last();
        if ways[i].last() == qs.last() {
            assert(qs[a] == qs[qs.len() - 1]);
        }
    }
    if ways[i].last() != qs.last() {
        let z = u.push(qs.last());
        assert(qs[qs.len() - 1] == qs.last());
        assert(qs.contains(qs.last()));
        lemma_last_step(n, u, qs.last(), opts);
        assert(leads_down(n, z, opts));
        assert(ps.contains(z[0]));
        assert(ways.contains(z));
        let j = choose|j: int| 0 <= j < ways.len() && ways[j] == z;
        assert(z.drop_last() =~= u);
        assert(z.last() == qs.last());
        if j < i {
            assert(ways[j].drop_last() == ways[i].drop_last());
            assert(in_places(entry_at(n, ways[j].drop_last()), ways[j].last(), ways[i].last(), opts));
            let (a, b) = choose|a: int, b: int|
                0 <= a < b < qs.len() && #[trigger] qs[a] == z.last() && #[trigger] qs[b]
                    == ways[i].last();
            assert(qs[a] == qs[qs.len() - 1]);
        }
        assert(i < j && ways[j].drop_last() == u);
    }
}

/// The rows of a tree are one for its root, those that outline what is in it, and one
/// for all hidden entries where there are any and they are not listed.
pub proof fn tree_has_no_other_rows(root: Node, opts: RenderOptions)
    ensures
        ({
            let rows = tree_rows(root, opts);
            let inner = if root.is_dir {
                rows_below(root, 0, Seq::empty(), opts)
            } else {
                Seq::empty()
            };
            let more: int = match opts.hidden_summary {
                Some((count, _)) => if count > 0 {
                    1
                } else {
                    0
                },
                None => 0,
            };
            &&& rows.len() == 1 + inner.len() + more
            &&& rows[0].path == Some(root.path@)
            &&& rows[0].size == root.size
            &&& rows[0].line[0].content == root.path@
            &&& rows[0].line[2].content == human_text(root.size)
            &&& rows.subrange(1, 1 + inner.len() as int) == inner
            &&& more == 1 ==> rows.last().is_hidden_summary && rows.last().path is None
        }),
{
    let rows = tree_rows(root, opts);
    let inner = if root.is_dir {
        rows_below(root, 0, Seq::empty(), opts)
    } else {
        Seq::empty()
    };
    assert(rows.subrange(1, 1 + inner.len() as int) =~= inner);
}

} // verus!
