//! What the rows of the other modes stand for: bars, and the flat list of files.

use vstd::prelude::*;

use crate::binary64::tenths_text;
use crate::bytes::{byte_len, on_boundary};
use crate::cli::{Mode, SortBy, SortOrder};
use crate::display::bars::{
    bar_columns, bar_fill, bar_items, bar_row, bar_rows, item_key, item_keys, item_size, largest, unsorted_items, BarItem,
};
use crate::display::flat::{flat_files, flat_listed, flat_rows};
use crate::display::outline::{
    has_a_row, lemma_order_picks_all, listing_is_sorted, may_come_first,
};
use crate::display::{
    hidden_children, hidden_row, hidden_summary_of, human_text, listed, listed_children,
    rows_in_mode, summary_rows, RenderOptions, RowView,
};
use crate::order::{precedes, stable_order, stable_order_sorts, text_le};
use crate::paths::{below, first_component_of};
use crate::shares::percentages_are_nearest;
use crate::stamp::modified_text;
use crate::text::{decimal_text, lowercase_text, padded_end, padded_start, repeated};
use crate::walker::{files_among, files_of, total_size, Node};

verus! {

// ---------------------------------------------------------------------------
// Bars
// ---------------------------------------------------------------------------

/// Whether one bar may be above another; the hidden entries are sorted by the name
/// "hidden items".
pub open spec fn bar_may_come_first(
    a: BarItem,
    b: BarItem,
    sort: SortBy,
    order: SortOrder,
) -> bool {
    let size_of = |i: BarItem|
        match i {
            BarItem::Real(n) => n.size,
            BarItem::Hidden(s) => s,
        };
    let name_of = |i: BarItem|
        match i {
            BarItem::Real(n) => lowercase_text(n.name@),
            BarItem::Hidden(_) => "hidden items"@,
        };
    match (sort, order) {
        (SortBy::Size, SortOrder::Desc) => size_of(a) >= size_of(b),
        (SortBy::Size, SortOrder::Asc) => size_of(a) <= size_of(b),
        (SortBy::Name, SortOrder::Asc) => text_le(name_of(a), name_of(b)),
        (SortBy::Name, SortOrder::Desc) => text_le(name_of(b), name_of(a)),
    }
}

/// Whether bars are those of the entries that are listed, and one for the hidden entries
/// where they are not listed.
pub open spec fn are_bars_of(items: Seq<BarItem>, root: Node, opts: RenderOptions) -> bool {
    items.to_multiset() == (root.children@.filter(|c: Node| has_a_row(c, opts)).map_values(
        |n: Node| BarItem::Real(n),
    ) + (match opts.hidden_summary {
        Some((count, size)) => if count > 0 {
            seq![BarItem::Hidden(size)]
        } else {
            Seq::empty()
        },
        None => Seq::empty(),
    })).to_multiset()
}

/// Whether a row has a bar of the right length: the columns beyond the fortieth, filled as
/// far as its size goes in the largest, rounded down.
pub open spec fn has_bar(r: RowView, size: u64, max: u64, width: u16) -> bool {
    let columns = if width < 40 {
        0
    } else {
        width - 40
    };
    let (full, rest) = (r.line[4].content, r.line[5].content);
    &&& full.len() + rest.len() == columns
    &&& full.len() * max <= size * columns
    &&& size * columns < (full.len() + 1) * max
    &&& forall|i: int| 0 <= i < full.len() ==> #[trigger] full[i] == '█'
    &&& forall|i: int| 0 <= i < rest.len() ==> #[trigger] rest[i] == '░'
}

proof fn lemma_repeated(c: char, n: nat)
    ensures
        repeated(c, n).len() == n,
        forall|i: int| 0 <= i < n ==> #[trigger] repeated(c, n)[i] == c,
{
}

proof fn lemma_bar(item: BarItem, root: Node, opts: RenderOptions, max: u64)
    requires
        1 <= max,
        item_size(item) <= max,
    ensures
        has_bar(bar_row(item, root, opts, max), item_size(item), max, opts.width),
{
    let size = item_size(item);
    let columns = bar_columns(opts.width);
    let fill = bar_fill(size, columns, max);
    let r = bar_row(item, root, opts, max);
    assert(r.line[4].content == repeated('█', fill));
    assert(r.line[5].content == repeated('░', (columns - fill) as nat));
    lemma_repeated('█', fill);
    assert(fill * max <= size * columns && size * columns < (fill + 1) * max && fill <= columns)
        by (nonlinear_arith)
        requires
            fill == (size * columns) as nat / (max as nat),
            size <= max,
            max >= 1,
    ;
    lemma_repeated('░', (columns - fill) as nat);
}

proof fn lemma_largest_bar(items: Seq<BarItem>)
    ensures
        largest(items) >= 1,
        forall|i: int| 0 <= i < items.len() ==> item_size(#[trigger] items[i]) <= largest(items),
        largest(items) == 1 || exists|i: int|
            0 <= i < items.len() && item_size(#[trigger] items[i]) == largest(items),
    decreases items.len(),
{
    if items.len() > 0 {
        let d = items.drop_last();
        lemma_largest_bar(d);
        assert forall|i: int| 0 <= i < items.len() implies item_size(#[trigger] items[i])
            <= largest(items) by {
            if i < d.len() {
                assert(d[i] == items[i]);
            }
        }
        if item_size(items.last()) > largest(d) {
            assert(item_size(items[items.len() - 1]) == largest(items));
        } else if largest(d) != 1 {
            let i = choose|i: int| 0 <= i < d.len() && item_size(#[trigger] d[i]) == largest(d);
            assert(d[i] == items[i]);
        }
    }
}

/// Whether a row shows a bar of an entry, or that of the hidden entries.
pub open spec fn shows_bar(r: RowView, item: BarItem, opts: RenderOptions) -> bool {
    match item {
        BarItem::Real(n) => {
            &&& r.path == Some(n.path@)
            &&& r.name == n.name@
            &&& r.size == n.size
            &&& r.is_dir == n.is_dir
            &&& !r.is_hidden_summary
            &&& byte_len(n.name@) <= 24 ==> r.line[0].content == padded_end(n.name@, 24)
            &&& byte_len(n.name@) > 24 && on_boundary(n.name@, 23) ==> exists|k: int|
                {
                    &&& 0 <= k <= n.name@.len()
                    &&& byte_len(#[trigger] n.name@.take(k)) == 23
                    &&& r.line[0].content == padded_end(n.name@.take(k) + seq!['…'], 24)
                }
            &&& r.line[2].content == padded_start(human_text(n.size), 12)
            &&& opts.show_modified ==> r.line[7].content == modified_text(n.modified)
        },
        BarItem::Hidden(size) => {
            &&& r.path is None
            &&& r.name.len() == 0
            &&& r.size == size
            &&& r.is_hidden_summary
            &&& r.line[2].content == padded_start(human_text(size), 12)
        },
    }
}

/// Whether rows are those of bars: one for the directory itself, then one for each bar, in
/// the order that was asked for, the longest bar being that of the largest.
pub open spec fn are_bar_rows(
    rows: Seq<RowView>,
    items: Seq<BarItem>,
    max: u64,
    opts: RenderOptions,
) -> bool {
    &&& rows.len() == 1 + items.len()
    &&& max >= 1
    &&& forall|i: int|
        0 <= i < items.len() ==> {
            let r = rows[i + 1];
            &&& shows_bar(r, #[trigger] items[i], opts)
            &&& r.size <= max
            &&& has_bar(r, r.size, max, opts.width)
        }
    &&& max == 1 || exists|i: int| 0 < i < rows.len() && (#[trigger] rows[i]).size == max
    &&& forall|i: int, j: int|
        0 <= i < j < items.len() ==> bar_may_come_first(
            #[trigger] items[i],
            #[trigger] items[j],
            opts.sort,
            opts.sort_order,
        )
}

/// The rows of a directory in bars are one for itself and one for each entry that is
/// listed, in the order that was asked for; the lengths of the bars follow the sizes.
pub proof fn bars_show_every_entry(root: Node, opts: RenderOptions)
    requires
        root.is_dir,
    ensures
        exists|items: Seq<BarItem>, max: u64| #[trigger]
            are_bar_rows(bar_rows(root, opts), items, max, opts) && are_bars_of(items, root, opts),
{
    let items = bar_items(root, opts);
    let max = largest(items);
    let rows = bar_rows(root, opts);
    lemma_largest_bar(items);
    lemma_bars_sorted(root, opts);
    assert(rows.len() == 1 + items.len());
    assert forall|i: int| 0 <= i < items.len() implies {
        let r = rows[i + 1];
        &&& shows_bar(r, #[trigger] items[i], opts)
        &&& r.size <= max
        &&& has_bar(r, r.size, max, opts.width)
    } by {
        assert(rows[i + 1] == bar_row(items[i], root, opts, max));
        assert(item_size(items[i]) <= max);
        lemma_bar(items[i], root, opts, max);
        lemma_bar_says(items[i], root, opts, max);
    }
    if max != 1 {
        let i = choose|i: int| 0 <= i < items.len() && item_size(#[trigger] items[i]) == max;
        assert(rows[i + 1] == bar_row(items[i], root, opts, max));
        assert(0 < i + 1 < rows.len() && rows[i + 1].size == max);
    }
    assert(are_bar_rows(rows, items, max, opts));
}

proof fn lemma_bar_says(item: BarItem, root: Node, opts: RenderOptions, max: u64)
    ensures
        shows_bar(bar_row(item, root, opts, max), item, opts),
        bar_row(item, root, opts, max).size == item_size(item),
{
    if let BarItem::Real(n) = item {
        let s = n.name@;
        if byte_len(s) > 24 && on_boundary(s, 23) {
            crate::bytes::char_index_is_greatest(s, 23);
            let k = crate::bytes::char_index(s, 23) as int;
            assert(s.take(k).push('…') =~= s.take(k) + seq!['…']);
            assert(byte_len(s.take(k)) == 23);
        }
    }
}

proof fn lemma_bars_sorted(root: Node, opts: RenderOptions)
    ensures
        are_bars_of(bar_items(root, opts), root, opts),
        forall|i: int, j: int|
            0 <= i < j < bar_items(root, opts).len() ==> bar_may_come_first(
                #[trigger] bar_items(root, opts)[i],
                #[trigger] bar_items(root, opts)[j],
                opts.sort,
                opts.sort_order,
            ),
{
    let items = bar_items(root, opts);
    let u = unsorted_items(root, opts);
    let keys = item_keys(u, opts.sort);
    let desc = opts.sort_order == SortOrder::Desc;
    let p = stable_order(keys, desc);
    stable_order_sorts(keys, desc);
    lemma_order_picks_all(u, keys, desc);
    lemma_listed(root, opts);
    assert(are_bars_of(items, root, opts));
    assert forall|i: int, j: int| 0 <= i < j < items.len() implies bar_may_come_first(
        #[trigger] items[i],
        #[trigger] items[j],
        opts.sort,
        opts.sort_order,
    ) by {
        assert(precedes(keys, desc, p[i], p[j]));
        assert(items[i] == u[p[i]] && items[j] == u[p[j]]);
        assert(keys[p[i]] == item_key(u[p[i]], opts.sort));
        assert(keys[p[j]] == item_key(u[p[j]], opts.sort));
    }
}

proof fn lemma_listed(n: Node, opts: RenderOptions)
    ensures
        listed_children(n, opts) == n.children@.filter(|c: Node| has_a_row(c, opts)),
{
    let p = |c: Node| listed(c, opts);
    let q = |c: Node| has_a_row(c, opts);
    assert(p =~= q);
}

// ---------------------------------------------------------------------------
// The flat list
// ---------------------------------------------------------------------------

/// Whether a way leads from a node to a file: over directories, to an entry that is none.
pub open spec fn leads_to_file(n: Node, way: Seq<int>) -> bool
    decreases way.len(),
{
    if way.len() == 0 {
        !n.is_dir
    } else {
        &&& n.is_dir
        &&& 0 <= way[0] < n.children@.len()
        &&& leads_to_file(n.children@[way[0]], way.skip(1))
    }
}

/// The file at the end of a way.
pub open spec fn file_at(n: Node, way: Seq<int>) -> Node
    decreases way.len(),
{
    if way.len() == 0 {
        n
    } else {
        file_at(n.children@[way[0]], way.skip(1))
    }
}

/// Whether `ways` tells where each of some files is: every file below a node is there
/// once.
pub open spec fn are_files_of(ways: Seq<Seq<int>>, files: Seq<Node>, n: Node) -> bool {
    &&& ways.len() == files.len()
    &&& ways.no_duplicates()
    &&& forall|w: Seq<int>| #[trigger] ways.contains(w) <==> leads_to_file(n, w)
    &&& forall|i: int| 0 <= i < files.len() ==> #[trigger] files[i] == file_at(n, ways[i])
}

spec fn file_ways(n: Node) -> Seq<Seq<int>>
    decreases n,
{
    if n.is_dir {
        file_ways_among(n.children@)
    } else {
        seq![Seq::empty()]
    }
}

spec fn file_ways_among(s: Seq<Node>) -> Seq<Seq<int>>
    decreases s,
{
    if s.len() == 0 {
        Seq::empty()
    } else {
        let c = s.len() - 1;
        file_ways_among(s.drop_last()) + file_ways(s.last()).map_values(
            |w: Seq<int>| seq![c] + w,
        )
    }
}

/// The files of a tree are all there are in it, each once, wherever they are.
pub proof fn every_file_is_found_once(n: Node)
    ensures
        exists|ways: Seq<Seq<int>>| #[trigger] are_files_of(ways, files_of(n), n),
{
    lemma_files(n);
    assert(are_files_of(file_ways(n), files_of(n), n));
}

proof fn lemma_files(n: Node)
    ensures
        are_files_of(file_ways(n), files_of(n), n),
    decreases n, 1nat,
{
    let ws = file_ways(n);
    if n.is_dir {
        lemma_files_among(n.children@);
        assert forall|w: Seq<int>| #[trigger] ws.contains(w) <==> leads_to_file(n, w) by {
            let s = n.children@;
            if ws.contains(w) {
                assert(w.len() > 0 && 0 <= w[0] < s.len() && leads_to_file(s[w[0]], w.skip(1)));
            }
        }
        assert forall|i: int| 0 <= i < files_of(n).len() implies #[trigger] files_of(n)[i]
            == file_at(n, ws[i]) by {
            assert(ws.contains(ws[i]));
            assert(files_among(n.children@)[i] == file_at(n.children@[ws[i][0]], ws[i].skip(1)));
        }
    } else {
        let e = Seq::<int>::empty();
        assert(ws[0] == e);
        assert forall|w: Seq<int>| #[trigger] ws.contains(w) <==> leads_to_file(n, w) by {
            if leads_to_file(n, w) {
                assert(w =~= e);
                assert(ws[0] == w);
            }
        }
    }
}

proof fn lemma_files_among(s: Seq<Node>)
    ensures
        ({
            let ws = file_ways_among(s);
            let files = files_among(s);
            &&& ws.len() == files.len()
            &&& ws.no_duplicates()
            &&& forall|w: Seq<int>| #[trigger]
                ws.contains(w) <==> w.len() > 0 && 0 <= w[0] < s.len() && leads_to_file(
                    s[w[0]],
                    w.skip(1),
                )
            &&& forall|i: int|
                0 <= i < files.len() ==> #[trigger] files[i] == file_at(
                    s[ws[i][0]],
                    ws[i].skip(1),
                )
        }),
    decreases s, 0nat,
{
    if s.len() > 0 {
        let c = s.len() - 1;
        let d = s.drop_last();
        lemma_files_among(d);
        lemma_files(s.last());
        let a = file_ways_among(d);
        let b = file_ways(s.last());
        let m = b.map_values(|w: Seq<int>| seq![c] + w);
        let ws = file_ways_among(s);
        let (fa, fb) = (files_among(d), files_of(s.last()));
        let files = files_among(s);
        assert(ws == a + m);
        assert(files == fa + fb);
        assert forall|w: Seq<int>| #[trigger] (seq![c] + w).skip(1) == w by {
            assert((seq![c] + w).skip(1) =~= w);
        }
        assert forall|w: Seq<int>| #[trigger] ws.contains(w) <==> w.len() > 0 && 0 <= w[0]
            < s.len() && leads_to_file(s[w[0]], w.skip(1)) by {
            if ws.contains(w) {
                let i = choose|i: int| 0 <= i < ws.len() && ws[i] == w;
                if i < a.len() {
                    assert(a[i] == w);
                    assert(a.contains(w));
                    assert(d[w[0]] == s[w[0]]);
                } else {
                    let v = b[i - a.len()];
                    assert(w == seq![c] + v);
                    assert(b.contains(v));
                    assert((seq![c] + v).skip(1) == v);
                }
            }
            if w.len() > 0 && 0 <= w[0] < s.len() && leads_to_file(s[w[0]], w.skip(1)) {
                if w[0] < c {
                    assert(d[w[0]] == s[w[0]]);
                    assert(a.contains(w));
                    let i = choose|i: int| 0 <= i < a.len() && a[i] == w;
                    assert(ws[i] == w);
                } else {
                    let v = w.skip(1);
                    assert(b.contains(v));
                    let i = choose|i: int| 0 <= i < b.len() && b[i] == v;
                    assert(w =~= seq![c] + v);
                    assert(ws[a.len() + i] == w);
                }
            }
        }
        assert forall|i: int, j: int| 0 <= i < j < ws.len() implies ws[i] != ws[j] by {
            if j < a.len() {
                assert(a[i] != a[j]);
            } else if i < a.len() {
                assert(a.contains(a[i]));
                assert(ws[j] == seq![c] + b[j - a.len()]);
                assert(ws[j][0] == c);
            } else {
                let (v, w) = (b[i - a.len()], b[j - a.len()]);
                assert(v != w);
                assert((seq![c] + v).skip(1) == v);
                assert((seq![c] + w).skip(1) == w);
            }
        }
        assert forall|i: int| 0 <= i < files.len() implies #[trigger] files[i] == file_at(
            s[ws[i][0]],
            ws[i].skip(1),
        ) by {
            if i < fa.len() {
                assert(files[i] == fa[i]);
                assert(ws[i] == a[i]);
                assert(a.contains(a[i]));
                assert(d[a[i][0]] == s[a[i][0]]);
            } else {
                let v = b[i - a.len()];
                assert(ws[i] == seq![c] + v);
                assert((seq![c] + v).skip(1) == v);
                assert(fb[i - a.len()] == file_at(s.last(), v));
            }
        }
    }
}

/// Whether a file is in the flat list: it is large enough, and neither its name nor that of
/// the entry of the root that it lies in starts with a dot where one row stands for all
/// such entries.
pub open spec fn has_a_flat_row(f: Node, root: Node, opts: RenderOptions) -> bool {
    &&& f.size >= opts.min_size
    &&& opts.hidden_summary is None || {
        &&& f.name@.len() == 0 || f.name@[0] != '.'
        &&& below(f.path@, root.path@) matches Some(rel) ==> first_component_of(
            rel,
        ) matches Some(top) ==> top.len() == 0 || top[0] != '.'
    }
}

/// The rows of the flat list are one for the root, one for each of its files that is
/// listed, in the order that was asked for, and one for all hidden entries where they are
/// not listed.
pub proof fn flat_list_shows_every_file(root: Node, opts: RenderOptions)
    ensures
        exists|files: Seq<Node>|
            {
                let rows = flat_rows(root, opts);
                let more = summary_rows(opts, root.size).len();
                &&& #[trigger] files.to_multiset() == files_of(root).filter(
                    |f: Node| has_a_flat_row(f, root, opts),
                ).to_multiset()
                &&& rows.len() == 1 + files.len() + more
                &&& forall|i: int|
                    0 <= i < files.len() ==> {
                        &&& (#[trigger] rows[i + 1]).path == Some(files[i].path@)
                        &&& rows[i + 1].name == files[i].name@
                        &&& rows[i + 1].size == files[i].size
                        &&& !rows[i + 1].is_dir
                        &&& !rows[i + 1].is_hidden_summary
                        &&& rows[i + 1].line[0].content == padded_start(
                            human_text(files[i].size),
                            12,
                        )
                        &&& rows[i + 1].line[2].content == (match below(
                            files[i].path@,
                            root.path@,
                        ) {
                            Some(rel) => rel,
                            None => files[i].path@,
                        })
                        &&& opts.show_modified ==> rows[i + 1].line[4].content == modified_text(
                            files[i].modified,
                        )
                    }
                &&& forall|i: int, j: int|
                    0 <= i < j < files.len() ==> may_come_first(
                        #[trigger] files[i],
                        #[trigger] files[j],
                        opts.sort,
                        opts.sort_order,
                    )
            },
{
    let files = flat_files(root, opts);
    let p = |f: Node| flat_listed(f, root, opts);
    let q = |f: Node| has_a_flat_row(f, root, opts);
    assert(p =~= q);
    listing_is_sorted(files_of(root).filter(p), opts.sort, opts.sort_order);
    let rows = flat_rows(root, opts);
    assert forall|i: int| 0 <= i < files.len() implies #[trigger] rows[i + 1]
        == crate::display::flat::file_row(files[i], root, opts) by {}
}

// ---------------------------------------------------------------------------
// Hidden entries
// ---------------------------------------------------------------------------

/// The summary of hidden entries counts those directly below the node whose names start
/// with a dot, and adds up their sizes; there is none where they are shown.
pub proof fn hidden_entries_are_counted(n: Node, show_hidden: bool)
    ensures
        ({
            let dotted = n.children@.filter(|c: Node| c.name@.len() > 0 && c.name@[0] == '.');
            match hidden_summary_of(n, show_hidden) {
                None => show_hidden || dotted.len() == 0,
                Some((count, size)) => {
                    &&& !show_hidden
                    &&& dotted.len() > 0
                    &&& dotted.len() <= u64::MAX ==> count == dotted.len()
                    &&& total_size(dotted) <= u64::MAX ==> size == total_size(dotted)
                },
            }
        }),
{
    let p = |c: Node| crate::text::starts_with(c.name@, '.');
    let q = |c: Node| c.name@.len() > 0 && c.name@[0] == '.';
    assert(p =~= q);
    assert(hidden_children(n) == n.children@.filter(q));
}

/// The first row of every list is the root, with its path and its size.
pub proof fn lists_start_with_the_root(root: Node, opts: RenderOptions, mode: Mode)
    requires
        mode != Mode::Treemap,
    ensures
        ({
            let r = rows_in_mode(root, opts, mode)[0];
            &&& rows_in_mode(root, opts, mode).len() > 0
            &&& r.path == Some(root.path@)
            &&& r.name == root.name@
            &&& r.size == root.size
            &&& r.is_dir == root.is_dir
            &&& !r.is_hidden_summary
            &&& root.path@.is_prefix_of(r.line[0].content)
            &&& mode != Mode::Flat ==> r.line[0].content == root.path@
            &&& r.line[2].content == human_text(root.size)
        }),
{
    let p = root.path@;
    assert(p.is_prefix_of(p));
    assert(p.is_prefix_of(p + " (flat files)"@));
}

/// The row that stands for all hidden entries says how many they are, how large they are,
/// and the nearest percentage of the whole that they take.
pub proof fn the_hidden_row_says_what_is_hidden(count: u64, size: u64, whole: u64)
    requires
        size <= whole,
        0 < whole,
    ensures
        ({
            let r = hidden_row(count, size, whole);
            &&& r.is_hidden_summary
            &&& r.path is None
            &&& r.line.len() == 1
            &&& exists|v: nat|
                {
                    &&& r.line[0].content == "··· "@ + decimal_text(count as nat) + " hidden "@ + (
                    if count == 1 {
                        "item"@
                    } else {
                        "items"@
                    }) + "  ("@ + human_text(size) + "  |  "@ + #[trigger] decimal_text(v) + "%)"@
                    &&& 1000 * (v * whole) <= 1000 * (100 * size) + 501 * whole
                    &&& 1000 * (v * whole) >= 1000 * (100 * size) - 501 * whole
                }
        }),
{
    percentages_are_nearest(size as nat, whole as nat, 1);
    let v = crate::binary64::scaled(crate::binary64::percent(size as nat, whole as nat), 1);
    assert(hidden_row(count, size, whole).line[0].content == "··· "@ + decimal_text(count as nat)
        + " hidden "@ + (if count == 1 {
        "item"@
    } else {
        "items"@
    }) + "  ("@ + human_text(size) + "  |  "@ + decimal_text(v) + "%)"@);
}

/// The bar of the hidden entries is named by the nearest tenth of a percent of the whole
/// that they take.
pub proof fn the_hidden_bar_says_its_share(size: u64, root: Node, opts: RenderOptions, max: u64)
    requires
        size <= root.size,
        0 < root.size,
    ensures
        exists|v: nat|
            {
                let r = bar_row(BarItem::Hidden(size), root, opts, max);
                let label = "Hidden Items  "@ + #[trigger] tenths_text(v) + "%"@;
                &&& byte_len(label) <= 24 ==> r.line[0].content == padded_end(label, 24)
                &&& 1000 * (v * root.size) <= 1000 * (1000 * size) + 501 * root.size
                &&& 1000 * (v * root.size) >= 1000 * (1000 * size) - 501 * root.size
            },
{
    let whole = root.size as nat;
    percentages_are_nearest(size as nat, whole, 10);
    let v = crate::binary64::scaled(crate::binary64::percent(size as nat, whole), 10);
    let label = "Hidden Items  "@ + tenths_text(v) + "%"@;
    assert(crate::display::bars::hidden_label(size, root.size) == label);
    let r = bar_row(BarItem::Hidden(size), root, opts, max);
    assert(byte_len(label) <= 24 ==> r.line[0].content == padded_end(label, 24));
}

} // verus!
