//! Moving among rows, and leaving rows out.

use vstd::prelude::*;

use crate::config::ViewOptions;
use crate::display::{row_views, Row, RowView};
use crate::lists::{
    lemma_filter_all, lemma_filter_none, lemma_filter_passes, lemma_filter_step,
};
use crate::paths::{same_components, same_path};
use crate::text::{
    contains_text, lowercase, lowercase_text, occurs_in, starts_with, starts_with_char,
};

verus! {

/// Whether a row can be selected.
pub open spec fn selectable(rows: Seq<RowView>, i: int) -> bool {
    0 <= i < rows.len() && !rows[i].is_hidden_summary
}

/// The first row from `i` on that can be selected; the number of rows where
/// there is none.
pub open spec fn next_selectable(rows: Seq<RowView>, i: nat) -> nat
    decreases rows.len() - i,
{
    if i >= rows.len() {
        rows.len()
    } else if selectable(rows, i as int) {
        i
    } else {
        next_selectable(rows, i + 1)
    }
}

/// The last row before `i` that can be selected.
pub open spec fn prev_selectable(rows: Seq<RowView>, i: nat) -> Option<nat>
    decreases i,
{
    if i == 0 {
        None
    } else if selectable(rows, i - 1) {
        Some((i - 1) as nat)
    } else {
        prev_selectable(rows, (i - 1) as nat)
    }
}

/// The row that is reached from `from` by up to `steps` rows down.
pub open spec fn stepped_down(rows: Seq<RowView>, from: nat, steps: nat) -> nat
    decreases steps,
{
    let n = next_selectable(rows, from + 1);
    if steps == 0 || n >= rows.len() {
        from
    } else {
        stepped_down(rows, n, (steps - 1) as nat)
    }
}

/// The row that is reached from `from` by up to `steps` rows up.
pub open spec fn stepped_up(rows: Seq<RowView>, from: nat, steps: nat) -> nat
    decreases steps,
{
    if steps == 0 {
        from
    } else {
        match prev_selectable(rows, from) {
            Some(p) => stepped_up(rows, p, (steps - 1) as nat),
            None => from,
        }
    }
}

/// The last row that can be selected, the first one where there is none.
pub open spec fn last_selectable(rows: Seq<RowView>) -> nat {
    match prev_selectable(rows, rows.len()) {
        Some(p) => p,
        None => 0,
    }
}

/// The row for a cursor at `cursor`: that row where it can be selected, else
/// the next one down that can, else the next one up.
pub open spec fn snapped(rows: Seq<RowView>, cursor: nat) -> nat {
    if rows.len() == 0 {
        0
    } else {
        let c = if cursor >= rows.len() {
            (rows.len() - 1) as nat
        } else {
            cursor
        };
        let n = next_selectable(rows, c);
        if n < rows.len() {
            n
        } else {
            match prev_selectable(rows, c) {
                Some(p) => p,
                None => c,
            }
        }
    }
}

/// The number of rows that can be selected.
pub open spec fn selectable_count(rows: Seq<RowView>) -> nat {
    rows.filter(|r: RowView| !r.is_hidden_summary).len()
}

pub proof fn lemma_next(rows: Seq<RowView>, i: nat)
    ensures
        next_selectable(rows, i) <= rows.len(),
        i <= rows.len() ==> i <= next_selectable(rows, i),
        next_selectable(rows, i) < rows.len() ==> selectable(
            rows,
            next_selectable(rows, i) as int,
        ),
        forall|j: int| i <= j < next_selectable(rows, i) ==> !selectable(rows, j),
    decreases rows.len() - i,
{
    if i < rows.len() && !selectable(rows, i as int) {
        lemma_next(rows, i + 1);
    }
}

pub proof fn lemma_prev(rows: Seq<RowView>, i: nat)
    ensures
        match prev_selectable(rows, i) {
            Some(p) => p < i && selectable(rows, p as int) && forall|j: int|
                p < j < i ==> !selectable(rows, j),
            None => forall|j: int| 0 <= j < i ==> !selectable(rows, j),
        },
    decreases i,
{
    if i > 0 && !selectable(rows, i - 1) {
        lemma_prev(rows, (i - 1) as nat);
    }
}

/// From a row that can be selected, moving reaches rows that can be selected.
pub proof fn steps_stay_selectable(rows: Seq<RowView>, from: nat, steps: nat)
    requires
        selectable(rows, from as int),
    ensures
        selectable(rows, stepped_down(rows, from, steps) as int),
        selectable(rows, stepped_up(rows, from, steps) as int),
        stepped_up(rows, from, steps) <= from <= stepped_down(rows, from, steps),
    decreases steps,
{
    lemma_next(rows, from + 1);
    lemma_prev(rows, from);
    if steps > 0 {
        let n = next_selectable(rows, from + 1);
        if n < rows.len() {
            steps_stay_selectable(rows, n, (steps - 1) as nat);
        }
        match prev_selectable(rows, from) {
            Some(p) => {
                steps_stay_selectable(rows, p, (steps - 1) as nat);
            },
            None => {},
        }
    }
}

/// Where any row can be selected, the cursor comes to rest on such a row, and
/// stays where it is if it is on one.
pub proof fn snapping_finds_selectable(rows: Seq<RowView>, cursor: nat)
    requires
        exists|i: int| selectable(rows, i),
    ensures
        selectable(rows, snapped(rows, cursor) as int),
        selectable(rows, last_selectable(rows) as int),
        selectable(rows, cursor as int) ==> snapped(rows, cursor) == cursor,
{
    let i = choose|i: int| selectable(rows, i);
    let c = if cursor >= rows.len() {
        (rows.len() - 1) as nat
    } else {
        cursor
    };
    lemma_next(rows, c);
    lemma_prev(rows, c);
    lemma_prev(rows, rows.len());
    if next_selectable(rows, c) >= rows.len() && prev_selectable(rows, c) is None {
        assert(!selectable(rows, i));
    }
}

/// One row down and one row up again is where it was.
pub proof fn up_reverts_down(rows: Seq<RowView>, from: nat)
    requires
        selectable(rows, from as int),
        stepped_down(rows, from, 1) != from,
    ensures
        stepped_up(rows, stepped_down(rows, from, 1), 1) == from,
{
    lemma_next(rows, from + 1);
    let n = next_selectable(rows, from + 1);
    assert(stepped_down(rows, n, 0) == n);
    lemma_prev(rows, n);
    match prev_selectable(rows, n) {
        Some(p) => {
            if p < from {
                assert(!selectable(rows, from as int));
            }
            assert(stepped_up(rows, p, 0) == p);
        },
        None => {},
    }
}

fn find_next(rows: &Vec<Row>, i: usize) -> (r: usize)
    ensures
        r == next_selectable(row_views(rows@), i as nat),
{
    let ghost v = row_views(rows@);
    let mut n: usize = i;
    assert(rows@.len() == v.len());
    while n < rows.len() && rows[n].is_hidden_summary
        invariant
            v == row_views(rows@),
            next_selectable(v, i as nat) == next_selectable(v, n as nat),
        decreases rows@.len() - n,
    {
        assert(v[n as int] == rows@[n as int]@);
        n = n + 1;
    }
    if n < rows.len() {
        assert(v[n as int] == rows@[n as int]@);
        n
    } else {
        rows.len()
    }
}

fn find_prev(rows: &Vec<Row>, i: usize) -> (r: Option<usize>)
    requires
        i <= rows@.len(),
    ensures
        match prev_selectable(row_views(rows@), i as nat) {
            Some(p) => r == Some(p as usize) && p < i,
            None => r is None,
        },
{
    let ghost v = row_views(rows@);
    let mut n: usize = i;
    proof {
        lemma_prev(v, i as nat);
    }
    while n > 0 && rows[n - 1].is_hidden_summary
        invariant
            n <= i <= rows@.len(),
            v == row_views(rows@),
            prev_selectable(v, i as nat) == prev_selectable(v, n as nat),
        decreases n,
    {
        assert(v[n - 1] == rows@[n - 1]@);
        n = n - 1;
    }
    if n == 0 {
        None
    } else {
        assert(v[n - 1] == rows@[n - 1]@);
        Some(n - 1)
    }
}

/// The number of rows that can be selected.
pub fn selectable_len(rows: &Vec<Row>) -> (r: usize)
    ensures
        r == selectable_count(row_views(rows@)),
{
    let ghost v = row_views(rows@);
    let ghost pred = |r: RowView| !r.is_hidden_summary;
    let mut n: usize = 0;
    let mut i: usize = 0;
    proof {
        lemma_filter_none(v, pred);
    }
    while i < rows.len()
        invariant
            i <= rows@.len(),
            n <= i,
            v == row_views(rows@),
            pred == (|r: RowView| !r.is_hidden_summary),
            n == v.take(i as int).filter(pred).len(),
        decreases rows@.len() - i,
    {
        proof {
            lemma_filter_step(v, i as int, pred);
        }
        assert(v[i as int] == rows@[i as int]@);
        if !rows[i].is_hidden_summary {
            n = n + 1;
        }
        i = i + 1;
    }
    proof {
        lemma_filter_all(v, pred);
        assert(v.len() == i);
    }
    n
}

/// The last row that can be selected.
pub fn last_selectable_idx(rows: &Vec<Row>) -> (r: usize)
    ensures
        r == last_selectable(row_views(rows@)),
{
    assert(row_views(rows@).len() == rows@.len());
    match find_prev(rows, rows.len()) {
        Some(p) => p,
        None => 0,
    }
}

/// Moves down by up to `steps` rows.
pub fn step_forward(rows: &Vec<Row>, from: usize, steps: usize) -> (r: usize)
    ensures
        r == stepped_down(row_views(rows@), from as nat, steps as nat),
{
    let ghost v = row_views(rows@);
    assert(rows@.len() == v.len());
    let mut i: usize = from;
    let mut left: usize = steps;
    while left > 0
        invariant
            v == row_views(rows@),
            rows@.len() == v.len(),
            left <= steps,
            stepped_down(v, from as nat, steps as nat) == stepped_down(v, i as nat, left as nat),
        decreases left,
    {
        if i >= rows.len() {
            proof {
                lemma_next(v, (i + 1) as nat);
            }
            return i;
        }
        let n = find_next(rows, i + 1);
        if n >= rows.len() {
            return i;
        }
        i = n;
        left = left - 1;
    }
    i
}

/// Moves up by up to `steps` rows.
pub fn step_backward(rows: &Vec<Row>, from: usize, steps: usize) -> (r: usize)
    requires
        from <= rows@.len(),
    ensures
        r == stepped_up(row_views(rows@), from as nat, steps as nat),
{
    let ghost v = row_views(rows@);
    let mut i: usize = from;
    let mut left: usize = steps;
    while left > 0
        invariant
            v == row_views(rows@),
            i <= rows@.len(),
            left <= steps,
            stepped_up(v, from as nat, steps as nat) == stepped_up(v, i as nat, left as nat),
        decreases left,
    {
        match find_prev(rows, i) {
            Some(p) => {
                i = p;
            },
            None => {
                return i;
            },
        }
        left = left - 1;
    }
    i
}

/// The row for a cursor at `cursor`.
pub fn snap_cursor_to_selectable(rows: &Vec<Row>, cursor: usize) -> (r: usize)
    ensures
        r == snapped(row_views(rows@), cursor as nat),
        r < rows@.len() || r == 0,
{
    let ghost v = row_views(rows@);
    assert(rows@.len() == v.len());
    if rows.len() == 0 {
        return 0;
    }
    let c: usize = if cursor >= rows.len() {
        rows.len() - 1
    } else {
        cursor
    };
    let n = find_next(rows, c);
    if n < rows.len() {
        return n;
    }
    match find_prev(rows, c) {
        Some(p) => p,
        None => c,
    }
}

/// Whether a row is shown: the root always; else not a hidden entry or an empty
/// directory unless those are shown, and not an entry whose name does not match
/// the filter.
pub open spec fn row_kept(
    r: RowView,
    root: Seq<char>,
    view: ViewOptions,
    query: Option<Seq<char>>,
) -> bool {
    ||| r.path is Some && same_components(r.path->0, root)
    ||| {
        &&& view.show_hidden || !starts_with(r.name, '.')
        &&& view.show_empty || !r.is_dir || r.size != 0
        &&& query is None || r.name.len() == 0 || occurs_in(
            lowercase_text(r.name),
            lowercase_text(query->0),
        )
    }
}

/// The rows that are shown.
pub open spec fn rows_kept(
    rows: Seq<RowView>,
    root: Seq<char>,
    view: ViewOptions,
    query: Option<Seq<char>>,
) -> Seq<RowView> {
    rows.filter(|r: RowView| row_kept(r, root, view, query))
}

/// Every row that is shown is the root or passes all that leaves rows out.
pub proof fn shown_rows_pass(
    rows: Seq<RowView>,
    root: Seq<char>,
    view: ViewOptions,
    query: Option<Seq<char>>,
    i: int,
)
    requires
        0 <= i < rows_kept(rows, root, view, query).len(),
    ensures
        row_kept(rows_kept(rows, root, view, query)[i], root, view, query),
        rows.contains(rows_kept(rows, root, view, query)[i]),
{
    lemma_filter_passes(rows, |r: RowView| row_kept(r, root, view, query));
}

/// The rows that are shown are, in their order, the root and all those that are neither
/// hidden nor empty where such are left out, and whose names hold the text that is looked
/// for; one without a name is not looked at.
pub proof fn rows_that_pass_are_shown(
    rows: Seq<RowView>,
    root: Seq<char>,
    view: ViewOptions,
    query: Option<Seq<char>>,
)
    ensures
        rows_kept(rows, root, view, query) == rows.filter(
            |r: RowView|
                {
                    let is_root = r.path matches Some(p) && same_components(p, root);
                    let is_hidden = r.name.len() > 0 && r.name[0] == '.';
                    let is_empty = r.is_dir && r.size == 0;
                    let holds = match query {
                        None => true,
                        Some(q) => {
                            let (n, q) = (lowercase_text(r.name), lowercase_text(q));
                            exists|at: int|
                                0 <= at && at + q.len() <= n.len() && #[trigger] n.subrange(
                                    at,
                                    at + q.len(),
                                ) == q
                        },
                    };
                    is_root || ((view.show_hidden || !is_hidden) && (view.show_empty || !is_empty)
                        && (r.name.len() == 0 || holds))
                },
        ),
{
    let f = |r: RowView| row_kept(r, root, view, query);
    let g = |r: RowView|
        {
            let is_root = r.path matches Some(p) && same_components(p, root);
            let is_hidden = r.name.len() > 0 && r.name[0] == '.';
            let is_empty = r.is_dir && r.size == 0;
            let holds = match query {
                None => true,
                Some(q) => {
                    let (n, q) = (lowercase_text(r.name), lowercase_text(q));
                    exists|at: int|
                        0 <= at && at + q.len() <= n.len() && #[trigger] n.subrange(
                            at,
                            at + q.len(),
                        ) == q
                },
            };
            is_root || ((view.show_hidden || !is_hidden) && (view.show_empty || !is_empty) && (
            r.name.len() == 0 || holds))
        };
    assert forall|r: RowView| #[trigger] f(r) == g(r) by {
        if let Some(q) = query {
            let (n, m) = (lowercase_text(r.name), lowercase_text(q));
            if occurs_in(n, m) {
                let at = choose|at: int| crate::text::occurs_at(n, m, at);
                assert(n.subrange(at, at + m.len()) == m);
            }
            if exists|at: int|
                0 <= at && at + m.len() <= n.len() && #[trigger] n.subrange(at, at + m.len())
                    == m {
                let at = choose|at: int|
                    0 <= at && at + m.len() <= n.len() && #[trigger] n.subrange(at, at + m.len())
                        == m;
                assert(crate::text::occurs_at(n, m, at));
            }
        }
    }
    assert(f =~= g);
}

/// The filter does not tell capitals from small letters.
pub proof fn filter_ignores_case(
    rows: Seq<RowView>,
    root: Seq<char>,
    view: ViewOptions,
    p: Seq<char>,
    q: Seq<char>,
)
    requires
        lowercase_text(p) == lowercase_text(q),
    ensures
        rows_kept(rows, root, view, Some(p)) == rows_kept(rows, root, view, Some(q)),
{
    let f = |r: RowView| row_kept(r, root, view, Some(p));
    let g = |r: RowView| row_kept(r, root, view, Some(q));
    assert(f =~= g);
}

fn keeps(r: &Row, root: &str, view: ViewOptions, query: Option<&str>) -> (k: bool)
    ensures
        k == row_kept(
            r@,
            root@,
            view,
            match query {
                Some(q) => Some(q@),
                None => None,
            },
        ),
{
    if let Some(p) = &r.path {
        if same_path(p, root) {
            return true;
        }
    }
    if !view.show_hidden && starts_with_char(&r.name, '.') {
        return false;
    }
    if !view.show_empty && r.is_dir && r.size == 0 {
        return false;
    }
    match query {
        Some(q) => {
            r.name.as_str().unicode_len() == 0 || contains_text(
                &lowercase(&r.name),
                &lowercase(q),
            )
        },
        None => true,
    }
}

/// Leaves out the rows that are not shown.
pub fn keep_rows(rows: Vec<Row>, root: &str, view: ViewOptions, query: Option<&str>) -> (r: Vec<
    Row,
>)
    ensures
        row_views(r@) == rows_kept(
            row_views(rows@),
            root@,
            view,
            match query {
                Some(q) => Some(q@),
                None => None,
            },
        ),
{
    let ghost q = match query {
        Some(s) => Some(s@),
        None => None,
    };
    let ghost all = row_views(rows@);
    let ghost pred = |r: RowView| row_kept(r, root@, view, q);
    let mut rest = rows;
    let mut back: Vec<Row> = Vec::new();
    proof {
        assert(all.skip(all.len() as int) =~= Seq::<RowView>::empty());
        assert(Seq::<RowView>::empty().filter(pred) =~= Seq::<RowView>::empty()) by {
            reveal(Seq::filter);
        }
        assert(row_views(back@).reverse() =~= Seq::<RowView>::empty());
        assert(row_views(rest@) =~= all.take(rest@.len() as int));
    }
    while rest.len() > 0
        invariant
            rest@.len() <= all.len(),
            row_views(rest@) == all.take(rest@.len() as int),
            q == (match query {
                Some(s) => Some(s@),
                None => None,
            }),
            pred == (|r: RowView| row_kept(r, root@, view, q)),
            row_views(back@).reverse() == all.skip(rest@.len() as int).filter(pred),
        decreases rest@.len(),
    {
        let ghost n = rest@.len() as int;
        let ghost last = rest@[n - 1];
        assert(row_views(rest@)[n - 1] == last@);
        match rest.pop() {
            Some(r) => {
                assert(r@ == all[n - 1]);
                assert(row_views(rest@) =~= all.take(n - 1));
                proof {
                    assert(all.skip(n - 1) =~= seq![r@] + all.skip(n));
                    Seq::filter_distributes_over_add(seq![r@], all.skip(n), pred);
                    assert(seq![r@].filter(pred) == (if pred(r@) {
                        seq![r@]
                    } else {
                        Seq::empty()
                    })) by {
                        reveal(Seq::filter);
                        assert(seq![r@].drop_last() =~= Seq::<RowView>::empty());
                        assert(Seq::<RowView>::empty().filter(pred) =~= Seq::<RowView>::empty());
                        if pred(r@) {
                            assert(Seq::<RowView>::empty().push(r@) =~= seq![r@]);
                        }
                    }
                }
                let ghost before = row_views(back@);
                if keeps(&r, root, view, query) {
                    back.push(r);
                    assert(row_views(back@) =~= before.push(r@));
                    assert(row_views(back@).reverse() =~= seq![r@] + before.reverse());
                } else {
                    assert(row_views(back@).reverse() =~= Seq::<RowView>::empty()
                        + before.reverse());
                }
            },
            None => {},
        }
    }
    assert(all.skip(0) =~= all);
    let ghost whole = row_views(back@);
    let mut out: Vec<Row> = Vec::new();
    assert(row_views(out@) =~= whole.skip(back@.len() as int).reverse());
    while back.len() > 0
        invariant
            back@.len() <= whole.len(),
            row_views(back@) == whole.take(back@.len() as int),
            row_views(out@) == whole.skip(back@.len() as int).reverse(),
        decreases back@.len(),
    {
        let ghost n = back@.len() as int;
        let ghost last = back@[n - 1];
        assert(row_views(back@)[n - 1] == last@);
        match back.pop() {
            Some(r) => {
                let ghost before = row_views(out@);
                out.push(r);
                assert(row_views(out@) =~= before.push(r@));
                assert(row_views(back@) =~= whole.take(n - 1));
                assert(row_views(out@) =~= whole.skip(n - 1).reverse());
            },
            None => {},
        }
    }
    assert(whole.skip(0) =~= whole);
    out
}

} // verus!
