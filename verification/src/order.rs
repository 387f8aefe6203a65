//! Stable ordering of listed entries by size or by name.

use vstd::prelude::*;

verus! {

/// What an entry is ordered by.
pub enum Key {
    Size(u64),
    Name(Vec<char>),
}

/// The mathematical form of a [`Key`].
pub enum KeyView {
    Size(nat),
    Name(Seq<char>),
}

impl View for Key {
    type V = KeyView;

    open spec fn view(&self) -> KeyView {
        match *self {
            Key::Size(n) => KeyView::Size(n as nat),
            Key::Name(t) => KeyView::Name(t@),
        }
    }
}

/// The keys of a list.
pub open spec fn key_views(keys: Seq<Key>) -> Seq<KeyView> {
    keys.map_values(|k: Key| k@)
}

/// Whether `a` is not after `b` in the order of their characters' code points.
pub open spec fn text_le(a: Seq<char>, b: Seq<char>) -> bool
    decreases a.len(),
{
    a.len() == 0 || (b.len() > 0 && (a[0] < b[0] || (a[0] == b[0] && text_le(
        a.drop_first(),
        b.drop_first(),
    ))))
}

/// Whether `a` is not greater than `b`. A size is less than any name.
pub open spec fn key_le(a: KeyView, b: KeyView) -> bool {
    match (a, b) {
        (KeyView::Size(x), KeyView::Size(y)) => x <= y,
        (KeyView::Name(x), KeyView::Name(y)) => text_le(x, y),
        (KeyView::Size(_), KeyView::Name(_)) => true,
        (KeyView::Name(_), KeyView::Size(_)) => false,
    }
}

/// Whether entry `i` comes before entry `j`: by key, in the direction asked
/// for, and by position where the keys are equal.
pub open spec fn precedes(keys: Seq<KeyView>, desc: bool, i: int, j: int) -> bool {
    let (small, great) = if desc {
        (keys[j], keys[i])
    } else {
        (keys[i], keys[j])
    };
    key_le(small, great) && (!key_le(great, small) || i < j)
}

/// `p` with `x` inserted before the entries that it precedes.
pub open spec fn with_inserted(keys: Seq<KeyView>, desc: bool, p: Seq<int>, x: int) -> Seq<int>
    decreases p.len(),
{
    if p.len() > 0 && precedes(keys, desc, x, p.last()) {
        with_inserted(keys, desc, p.drop_last(), x).push(p.last())
    } else {
        p.push(x)
    }
}

/// The positions of the first `n` entries in their stable order.
pub open spec fn order_upto(keys: Seq<KeyView>, desc: bool, n: nat) -> Seq<int>
    decreases n,
{
    if n == 0 {
        Seq::empty()
    } else {
        with_inserted(keys, desc, order_upto(keys, desc, (n - 1) as nat), n - 1)
    }
}

/// The positions of all entries in their stable order: sorted by key, entries
/// of equal keys as they were.
pub open spec fn stable_order(keys: Seq<KeyView>, desc: bool) -> Seq<int> {
    order_upto(keys, desc, keys.len())
}

/// Whether `p` lists positions below `n`, each before the next.
pub open spec fn is_chain(keys: Seq<KeyView>, desc: bool, p: Seq<int>) -> bool {
    &&& forall|i: int| 0 <= i < p.len() ==> 0 <= #[trigger] p[i] < keys.len()
    &&& forall|i: int, j: int| 0 <= i < j < p.len() ==> precedes(keys, desc, p[i], p[j])
}

/// The items of `s` at the positions `p`.
pub open spec fn picked<T>(s: Seq<T>, p: Seq<int>) -> Seq<T> {
    p.map_values(|i: int| s[i])
}

proof fn lemma_text_le(a: Seq<char>, b: Seq<char>, c: Seq<char>)
    ensures
        text_le(a, b) || text_le(b, a),
        text_le(a, b) && text_le(b, c) ==> text_le(a, c),
    decreases a.len(),
{
    if a.len() > 0 && b.len() > 0 {
        if c.len() > 0 {
            lemma_text_le(a.drop_first(), b.drop_first(), c.drop_first());
        } else {
            lemma_text_le(a.drop_first(), b.drop_first(), c);
        }
    }
}

proof fn lemma_key_le(a: KeyView, b: KeyView, c: KeyView)
    ensures
        key_le(a, b) || key_le(b, a),
        key_le(a, b) && key_le(b, c) ==> key_le(a, c),
{
    match (a, b, c) {
        (KeyView::Name(x), KeyView::Name(y), KeyView::Name(z)) => {
            lemma_text_le(x, y, z);
        },
        (KeyView::Name(x), KeyView::Name(y), _) => {
            lemma_text_le(x, y, y);
        },
        _ => {},
    }
}

proof fn lemma_precedes(keys: Seq<KeyView>, desc: bool, i: int, j: int, k: int)
    ensures
        precedes(keys, desc, i, j) && precedes(keys, desc, j, k) ==> precedes(keys, desc, i, k),
        i != j ==> precedes(keys, desc, i, j) || precedes(keys, desc, j, i),
        precedes(keys, desc, i, j) ==> !precedes(keys, desc, j, i),
{
    let (a, b, c) = (keys[i], keys[j], keys[k]);
    lemma_key_le(a, b, c);
    lemma_key_le(a, c, b);
    lemma_key_le(b, a, c);
    lemma_key_le(b, c, a);
    lemma_key_le(c, a, b);
    lemma_key_le(c, b, a);
}

proof fn lemma_inserted(keys: Seq<KeyView>, desc: bool, p: Seq<int>, x: int)
    requires
        is_chain(keys, desc, p),
        0 <= x < keys.len(),
        !p.contains(x),
    ensures
        is_chain(keys, desc, with_inserted(keys, desc, p, x)),
        with_inserted(keys, desc, p, x).len() == p.len() + 1,
        forall|y: int|
            #[trigger] with_inserted(keys, desc, p, x).contains(y) <==> p.contains(y) || y == x,
    decreases p.len(),
{
    let out = with_inserted(keys, desc, p, x);
    if p.len() > 0 && precedes(keys, desc, x, p.last()) {
        let front = p.drop_last();
        assert forall|y: int| #[trigger] front.contains(y) implies p.contains(y) by {
            let k = choose|k: int| 0 <= k < front.len() && front[k] == y;
            assert(p[k] == y);
        }
        lemma_inserted(keys, desc, front, x);
        let mid = with_inserted(keys, desc, front, x);
        assert(out == mid.push(p.last()));
        assert forall|i: int, j: int| 0 <= i < j < out.len() implies precedes(
            keys,
            desc,
            out[i],
            out[j],
        ) by {
            if j == out.len() - 1 {
                assert(mid.contains(mid[i]));
                if mid[i] != x {
                    let k = choose|k: int| 0 <= k < front.len() && front[k] == mid[i];
                    assert(precedes(keys, desc, p[k], p[p.len() - 1]));
                }
            }
        }
        assert forall|y: int| #[trigger] out.contains(y) <==> p.contains(y) || y == x by {
            if out.contains(y) {
                let k = choose|k: int| 0 <= k < out.len() && out[k] == y;
                if k < mid.len() {
                    assert(mid[k] == y);
                    assert(mid.contains(y));
                } else {
                    assert(p[p.len() - 1] == y);
                }
            }
            if p.contains(y) {
                let k = choose|k: int| 0 <= k < p.len() && p[k] == y;
                if k < front.len() {
                    assert(front[k] == y);
                    assert(mid.contains(y));
                    let m = choose|m: int| 0 <= m < mid.len() && mid[m] == y;
                    assert(out[m] == y);
                } else {
                    assert(out[out.len() - 1] == y);
                }
            }
            if y == x {
                assert(mid.contains(y));
                let m = choose|m: int| 0 <= m < mid.len() && mid[m] == y;
                assert(out[m] == y);
            }
        }
    } else {
        assert forall|i: int, j: int| 0 <= i < j < out.len() implies precedes(
            keys,
            desc,
            out[i],
            out[j],
        ) by {
            if j == out.len() - 1 {
                let last = p.last();
                assert(p.contains(last));
                lemma_precedes(keys, desc, x, last, last);
                if i < p.len() - 1 {
                    lemma_precedes(keys, desc, p[i], last, x);
                }
            }
        }
        assert forall|y: int| #[trigger] out.contains(y) <==> p.contains(y) || y == x by {
            if p.contains(y) {
                let k = choose|k: int| 0 <= k < p.len() && p[k] == y;
                assert(out[k] == y);
            }
            if y == x {
                assert(out[p.len() as int] == y);
            }
        }
    }
}

proof fn lemma_order_upto(keys: Seq<KeyView>, desc: bool, n: nat)
    requires
        n <= keys.len(),
    ensures
        is_chain(keys, desc, order_upto(keys, desc, n)),
        order_upto(keys, desc, n).len() == n,
        forall|y: int| #[trigger] order_upto(keys, desc, n).contains(y) <==> 0 <= y < n,
    decreases n,
{
    if n > 0 {
        lemma_order_upto(keys, desc, (n - 1) as nat);
        lemma_inserted(keys, desc, order_upto(keys, desc, (n - 1) as nat), n - 1);
    }
}

/// The stable order lists every position once, sorted by key in the direction
/// asked for, and keeps entries of equal keys in their original order.
pub proof fn stable_order_sorts(keys: Seq<KeyView>, desc: bool)
    ensures
        stable_order(keys, desc).len() == keys.len(),
        forall|y: int| #[trigger] stable_order(keys, desc).contains(y) <==> 0 <= y < keys.len(),
        is_chain(keys, desc, stable_order(keys, desc)),
{
    lemma_order_upto(keys, desc, keys.len());
}

proof fn lemma_chain_is_complete(keys: Seq<KeyView>, desc: bool, p: Seq<int>)
    requires
        is_chain(keys, desc, p),
        p.len() == keys.len(),
    ensures
        forall|y: int| 0 <= y < keys.len() ==> p.contains(y),
{
    let n = keys.len() as int;
    assert(p.no_duplicates()) by {
        assert forall|i: int, j: int| 0 <= i < p.len() && 0 <= j < p.len() && i != j implies p[i]
            != p[j] by {
            if i < j {
                lemma_precedes(keys, desc, p[i], p[j], p[j]);
            } else {
                lemma_precedes(keys, desc, p[j], p[i], p[i]);
            }
        }
    }
    p.unique_seq_to_set();
    let all = vstd::set_lib::set_int_range(0, n);
    vstd::set_lib::lemma_int_range(0, n);
    assert(p.to_set().subset_of(all));
    vstd::set_lib::lemma_subset_equality(p.to_set(), all);
    assert forall|y: int| 0 <= y < n implies p.contains(y) by {
        assert(all.contains(y));
        assert(p.to_set().contains(y));
    }
}

/// There is one stable order only: a complete chain is the stable order.
pub proof fn stable_order_is_unique(keys: Seq<KeyView>, desc: bool, p: Seq<int>)
    requires
        is_chain(keys, desc, p),
        p.len() == keys.len(),
    ensures
        p == stable_order(keys, desc),
{
    let q = stable_order(keys, desc);
    stable_order_sorts(keys, desc);
    lemma_chain_is_complete(keys, desc, p);
    lemma_equal_chains(keys, desc, p, q, keys.len());
    assert(p.take(keys.len() as int) =~= p);
    assert(q.take(keys.len() as int) =~= q);
}

proof fn lemma_equal_chains(keys: Seq<KeyView>, desc: bool, p: Seq<int>, q: Seq<int>, k: nat)
    requires
        is_chain(keys, desc, p),
        is_chain(keys, desc, q),
        p.len() == keys.len(),
        q.len() == keys.len(),
        forall|y: int| 0 <= y < keys.len() ==> p.contains(y),
        forall|y: int| 0 <= y < keys.len() ==> q.contains(y),
        k <= keys.len(),
    ensures
        p.take(k as int) == q.take(k as int),
    decreases k,
{
    if k > 0 {
        let m = k - 1;
        lemma_equal_chains(keys, desc, p, q, m as nat);
        assert forall|i: int| 0 <= i < m implies p[i] == q[i] by {
            assert(p.take(m)[i] == q.take(m)[i]);
        }
        if p[m] != q[m] {
            assert(q.contains(p[m]));
            assert(p.contains(q[m]));
            let i = choose|i: int| 0 <= i < q.len() && q[i] == p[m];
            let j = choose|j: int| 0 <= j < p.len() && p[j] == q[m];
            if i < m {
                lemma_precedes(keys, desc, p[i], p[m], p[m]);
            }
            if j < m {
                lemma_precedes(keys, desc, q[j], q[m], q[m]);
            }
            assert(precedes(keys, desc, q[m], q[i]));
            assert(precedes(keys, desc, p[m], p[j]));
            lemma_precedes(keys, desc, p[m], q[m], q[m]);
        }
        assert(p.take(k as int) =~= p.take(m).push(p[m]));
        assert(q.take(k as int) =~= q.take(m).push(q[m]));
    }
}

/// Whether `a` is not after `b`.
fn chars_le(a: &Vec<char>, b: &Vec<char>) -> (r: bool)
    ensures
        r == text_le(a@, b@),
{
    let mut i: usize = 0;
    assert(a@.skip(0) =~= a@);
    assert(b@.skip(0) =~= b@);
    while i < a.len()
        invariant
            i <= a@.len(),
            i <= b@.len(),
            text_le(a@, b@) == text_le(a@.skip(i as int), b@.skip(i as int)),
        decreases a@.len() - i,
    {
        if i >= b.len() {
            return false;
        }
        let x: char = a[i];
        let y: char = b[i];
        if x < y {
            return true;
        }
        if x > y {
            return false;
        }
        assert(a@.skip(i as int).drop_first() =~= a@.skip(i + 1));
        assert(b@.skip(i as int).drop_first() =~= b@.skip(i + 1));
        i = i + 1;
    }
    true
}

fn is_key_le(a: &Key, b: &Key) -> (r: bool)
    ensures
        r == key_le(a@, b@),
{
    match (a, b) {
        (Key::Size(x), Key::Size(y)) => *x <= *y,
        (Key::Name(x), Key::Name(y)) => chars_le(x, y),
        (Key::Size(_), Key::Name(_)) => true,
        (Key::Name(_), Key::Size(_)) => false,
    }
}

fn comes_before(keys: &Vec<Key>, desc: bool, i: usize, j: usize) -> (r: bool)
    requires
        i < keys@.len(),
        j < keys@.len(),
    ensures
        r == precedes(key_views(keys@), desc, i as int, j as int),
{
    let (small, great) = if desc {
        (&keys[j], &keys[i])
    } else {
        (&keys[i], &keys[j])
    };
    is_key_le(small, great) && (i < j || !is_key_le(great, small))
}

/// A list of positions as integers.
pub open spec fn positions(v: Seq<usize>) -> Seq<int> {
    v.map_values(|i: usize| i as int)
}

/// Whether `v` is a chain of positions in `lo..hi`.
spec fn sorted_run(keys: Seq<KeyView>, desc: bool, v: Seq<usize>, lo: int, hi: int) -> bool {
    &&& forall|i: int| 0 <= i < v.len() ==> lo <= #[trigger] v[i] < hi
    &&& forall|i: int, j: int|
        0 <= i < j < v.len() ==> precedes(keys, desc, v[i] as int, v[j] as int)
}

fn merge_runs(
    keys: &Vec<Key>,
    desc: bool,
    a: &Vec<usize>,
    b: &Vec<usize>,
    Ghost(lo): Ghost<int>,
    Ghost(mid): Ghost<int>,
    Ghost(hi): Ghost<int>,
) -> (r: Vec<usize>)
    requires
        0 <= lo <= mid <= hi <= keys@.len(),
        sorted_run(key_views(keys@), desc, a@, lo, mid),
        sorted_run(key_views(keys@), desc, b@, mid, hi),
        a@.len() + b@.len() == hi - lo,
    ensures
        sorted_run(key_views(keys@), desc, r@, lo, hi),
        r@.len() == a@.len() + b@.len(),
{
    let ghost kv = key_views(keys@);
    let mut out: Vec<usize> = Vec::new();
    let mut i: usize = 0;
    let mut j: usize = 0;
    while i < a.len() || j < b.len()
        invariant
            kv == key_views(keys@),
            0 <= lo <= mid <= hi <= keys@.len(),
            sorted_run(kv, desc, a@, lo, mid),
            sorted_run(kv, desc, b@, mid, hi),
            i <= a@.len(),
            j <= b@.len(),
            out@.len() == i + j,
            sorted_run(kv, desc, out@, lo, hi),
            forall|x: int, y: int|
                #![trigger out@[x], a@[y]]
                0 <= x < out@.len() && i <= y < a@.len() ==> precedes(
                    kv,
                    desc,
                    out@[x] as int,
                    a@[y] as int,
                ),
            forall|x: int, y: int|
                #![trigger out@[x], b@[y]]
                0 <= x < out@.len() && j <= y < b@.len() ==> precedes(
                    kv,
                    desc,
                    out@[x] as int,
                    b@[y] as int,
                ),
        decreases a@.len() - i + b@.len() - j,
    {
        let from_a = if i >= a.len() {
            false
        } else if j >= b.len() {
            true
        } else {
            comes_before(keys, desc, a[i], b[j])
        };
        if from_a {
            proof {
                assert forall|y: int| j <= y < b@.len() implies precedes(
                    kv,
                    desc,
                    a@[i as int] as int,
                    b@[y] as int,
                ) by {
                    if y > j {
                        lemma_precedes(
                            kv,
                            desc,
                            a@[i as int] as int,
                            b@[j as int] as int,
                            b@[y] as int,
                        );
                    }
                }
            }
            out.push(a[i]);
            i = i + 1;
        } else {
            proof {
                if i < a@.len() {
                    assert(a@[i as int] < mid <= b@[j as int]);
                    lemma_precedes(
                        kv,
                        desc,
                        a@[i as int] as int,
                        b@[j as int] as int,
                        b@[j as int] as int,
                    );
                    assert forall|y: int| i <= y < a@.len() implies precedes(
                        kv,
                        desc,
                        b@[j as int] as int,
                        a@[y] as int,
                    ) by {
                        if y > i {
                            lemma_precedes(
                                kv,
                                desc,
                                b@[j as int] as int,
                                a@[i as int] as int,
                                a@[y] as int,
                            );
                        }
                    }
                }
            }
            out.push(b[j]);
            j = j + 1;
        }
    }
    out
}

fn sort_run(keys: &Vec<Key>, desc: bool, lo: usize, hi: usize) -> (r: Vec<usize>)
    requires
        lo <= hi <= keys@.len(),
    ensures
        sorted_run(key_views(keys@), desc, r@, lo as int, hi as int),
        r@.len() == hi - lo,
    decreases hi - lo,
{
    if hi - lo <= 1 {
        let mut out: Vec<usize> = Vec::new();
        if lo < hi {
            out.push(lo);
        }
        out
    } else {
        let mid: usize = lo + (hi - lo) / 2;
        let a = sort_run(keys, desc, lo, mid);
        let b = sort_run(keys, desc, mid, hi);
        merge_runs(
            keys,
            desc,
            &a,
            &b,
            Ghost(lo as int),
            Ghost(mid as int),
            Ghost(hi as int),
        )
    }
}

/// The positions of `keys` in their stable order, descending where `desc`.
pub fn order_of(keys: &Vec<Key>, desc: bool) -> (r: Vec<usize>)
    ensures
        positions(r@) == stable_order(key_views(keys@), desc),
        r@.len() == keys@.len(),
        forall|i: int| 0 <= i < r@.len() ==> (#[trigger] r@[i]) < keys@.len(),
{
    let r = sort_run(keys, desc, 0, keys.len());
    proof {
        let p = positions(r@);
        let kv = key_views(keys@);
        assert(is_chain(kv, desc, p));
        stable_order_is_unique(kv, desc, p);
    }
    r
}

} // verus!
