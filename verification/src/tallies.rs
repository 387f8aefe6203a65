//! What the sizes and counts of a scanned tree say of it.

use vstd::prelude::*;

use crate::display::human_text;
use crate::display::listings::leads_to_file;
use crate::paths::{file_name_of, shown_name};
use crate::plain::summary_text;
use crate::text::decimal_text;
use crate::walker::{
    all_add_up, dir_total, dirs_in, file_count_is_number_of_files, file_total, files_among,
    files_of, sizes_add_up, total_size, Node,
};

verus! {

/// Whether every directory below a node that has no entries has no size.
pub open spec fn all_was_read(n: Node) -> bool
    decreases n,
{
    if n.is_dir {
        &&& n.children@.len() == 0 ==> n.size == 0
        &&& all_were_read(n.children@)
    } else {
        n.children@.len() == 0
    }
}

/// The same of each of a list.
pub open spec fn all_were_read(s: Seq<Node>) -> bool
    decreases s,
{
    s.len() == 0 || (all_were_read(s.drop_last()) && all_was_read(s.last()))
}

/// Where everything was read, a directory is as large as all files in it together,
/// however deep they are.
pub proof fn directories_are_as_large_as_their_files(n: Node)
    requires
        sizes_add_up(n),
        all_was_read(n),
    ensures
        n.size == total_size(files_of(n)),
    decreases n,
{
    if n.is_dir {
        if n.children@.len() > 0 {
            lemma_lists_are_as_large_as_their_files(n.children@);
        }
    } else {
        assert(files_of(n).drop_last() =~= Seq::<Node>::empty());
        assert(total_size(files_of(n).drop_last()) == 0);
    }
}

proof fn lemma_lists_are_as_large_as_their_files(s: Seq<Node>)
    requires
        all_add_up(s),
        all_were_read(s),
    ensures
        total_size(s) == total_size(files_among(s)),
    decreases s,
{
    if s.len() > 0 {
        lemma_lists_are_as_large_as_their_files(s.drop_last());
        directories_are_as_large_as_their_files(s.last());
        lemma_sizes_add(files_among(s.drop_last()), files_of(s.last()));
    }
}

proof fn lemma_sizes_add(a: Seq<Node>, b: Seq<Node>)
    ensures
        total_size(a + b) == total_size(a) + total_size(b),
    decreases b.len(),
{
    if b.len() == 0 {
        assert(a + b =~= a);
    } else {
        lemma_sizes_add(a, b.drop_last());
        assert((a + b).drop_last() =~= a + b.drop_last());
    }
}

/// Whether a way leads from a node over directories to a directory.
pub open spec fn leads_to_directory(n: Node, way: Seq<int>) -> bool
    decreases way.len(),
{
    &&& n.is_dir
    &&& way.len() > 0 ==> 0 <= way[0] < n.children@.len() && leads_to_directory(
        n.children@[way[0]],
        way.skip(1),
    )
}

/// Whether `ways` are all ways to directories below a node, each once.
pub open spec fn are_ways_to_directories(ways: Seq<Seq<int>>, n: Node) -> bool {
    &&& ways.no_duplicates()
    &&& forall|w: Seq<int>| #[trigger] ways.contains(w) <==> leads_to_directory(n, w)
}

spec fn dir_ways(n: Node) -> Seq<Seq<int>>
    decreases n,
{
    if n.is_dir {
        seq![Seq::empty()] + dir_ways_among(n.children@)
    } else {
        Seq::empty()
    }
}

spec fn dir_ways_among(s: Seq<Node>) -> Seq<Seq<int>>
    decreases s,
{
    if s.len() == 0 {
        Seq::empty()
    } else {
        let c = s.len() - 1;
        dir_ways_among(s.drop_last()) + dir_ways(s.last()).map_values(|w: Seq<int>| seq![c] + w)
    }
}

/// The directories of a tree are counted: there are as many as there are ways to one, its
/// own among them.
pub proof fn directories_are_counted(n: Node)
    ensures
        exists|ways: Seq<Seq<int>>| #[trigger]
            are_ways_to_directories(ways, n) && ways.len() == dir_total(n),
{
    lemma_dirs(n);
    assert(are_ways_to_directories(dir_ways(n), n));
}

proof fn lemma_dirs(n: Node)
    ensures
        are_ways_to_directories(dir_ways(n), n),
        dir_ways(n).len() == dir_total(n),
    decreases n, 1nat,
{
    let ws = dir_ways(n);
    if n.is_dir {
        let s = n.children@;
        lemma_dirs_among(s);
        let e = Seq::<int>::empty();
        let m = dir_ways_among(s);
        assert(ws == seq![e] + m);
        assert forall|w: Seq<int>| #[trigger] ws.contains(w) <==> leads_to_directory(n, w) by {
            if ws.contains(w) {
                let i = choose|i: int| 0 <= i < ws.len() && ws[i] == w;
                if i > 0 {
                    assert(m[i - 1] == w);
                    assert(m.contains(w));
                }
            }
            if leads_to_directory(n, w) {
                if w.len() == 0 {
                    assert(w =~= e);
                    assert(ws[0] == w);
                } else {
                    assert(m.contains(w));
                    let i = choose|i: int| 0 <= i < m.len() && m[i] == w;
                    assert(ws[i + 1] == w);
                }
            }
        }
        assert forall|i: int, j: int| 0 <= i < j < ws.len() implies ws[i] != ws[j] by {
            assert(ws[j] == m[j - 1]);
            assert(m.contains(m[j - 1]));
            if i > 0 {
                assert(ws[i] == m[i - 1]);
            }
        }
    }
}

proof fn lemma_dirs_among(s: Seq<Node>)
    ensures
        ({
            let ws = dir_ways_among(s);
            &&& ws.len() == dirs_in(s)
            &&& ws.no_duplicates()
            &&& forall|w: Seq<int>| #[trigger]
                ws.contains(w) <==> w.len() > 0 && 0 <= w[0] < s.len() && leads_to_directory(
                    s[w[0]],
                    w.skip(1),
                )
        }),
    decreases s, 0nat,
{
    if s.len() > 0 {
        let c = s.len() - 1;
        let d = s.drop_last();
        lemma_dirs_among(d);
        lemma_dirs(s.last());
        let a = dir_ways_among(d);
        let b = dir_ways(s.last());
        let m = b.map_values(|w: Seq<int>| seq![c] + w);
        let ws = dir_ways_among(s);
        assert(ws == a + m);
        assert forall|w: Seq<int>| #[trigger] (seq![c] + w).skip(1) == w by {
            assert((seq![c] + w).skip(1) =~= w);
        }
        assert forall|w: Seq<int>| #[trigger] ws.contains(w) <==> w.len() > 0 && 0 <= w[0]
            < s.len() && leads_to_directory(s[w[0]], w.skip(1)) by {
            if ws.contains(w) {
                let i = choose|i: int| 0 <= i < ws.len() && ws[i] == w;
                if i < a.len() {
                    assert(a[i] == w);
                    assert(a.contains(w));
                    assert(d[w[0]] == s[w[0]]);
                } else {
                    let v = b[i - a.len()];
                    assert(w == seq![c] + v);
                    assert(b.contains(v));
                    assert((seq![c] + v).skip(1) == v);
                }
            }
            if w.len() > 0 && 0 <= w[0] < s.len() && leads_to_directory(s[w[0]], w.skip(1)) {
                if w[0] < c {
                    assert(d[w[0]] == s[w[0]]);
                    assert(a.contains(w));
                    let i = choose|i: int| 0 <= i < a.len() && a[i] == w;
                    assert(ws[i] == w);
                } else {
                    let v = w.skip(1);
                    assert(b.contains(v));
                    let i = choose|i: int| 0 <= i < b.len() && b[i] == v;
                    assert(w =~= seq![c] + v);
                    assert(ws[a.len() + i] == w);
                }
            }
        }
        assert forall|i: int, j: int| 0 <= i < j < ws.len() implies ws[i] != ws[j] by {
            if j < a.len() {
                assert(a[i] != a[j]);
            } else if i < a.len() {
                assert(a.contains(a[i]));
                assert(ws[j] == seq![c] + b[j - a.len()]);
                assert(ws[j][0] == c);
            } else {
                let (v, w) = (b[i - a.len()], b[j - a.len()]);
                assert(v != w);
                assert((seq![c] + v).skip(1) == v);
                assert((seq![c] + w).skip(1) == w);
            }
        }
    }
}

/// The files of a tree are counted: there are as many as there are ways to one.
pub proof fn files_are_counted(n: Node)
    ensures
        exists|ways: Seq<Seq<int>>|
            {
                &&& ways.no_duplicates()
                &&& ways.len() == file_total(n)
                &&& forall|w: Seq<int>| #[trigger] ways.contains(w) <==> leads_to_file(n, w)
            },
{
    crate::display::listings::every_file_is_found_once(n);
    file_count_is_number_of_files(n);
    let ways = choose|ways: Seq<Seq<int>>| #[trigger]
        crate::display::listings::are_files_of(ways, files_of(n), n);
    assert(ways.no_duplicates());
}

/// The last line of the output says the size in its unit and in bytes, and how many files
/// and directories were counted; what was left out is said only where something was.
pub proof fn the_summary_says_what_was_counted(root: Node, skipped: nat)
    ensures
        ({
            let s = summary_text(root, skipped);
            let counted = "Total: "@ + human_text(root.size) + " ("@ + decimal_text(
                root.size as nat,
            ) + " bytes)  files: "@ + decimal_text(file_total(root)) + "  dirs: "@ + decimal_text(
                dir_total(root),
            );
            &&& skipped == 0 ==> s == counted
            &&& skipped > 0 ==> s == counted + ("  ⚠ "@ + decimal_text(skipped) + " skipped"@)
        }),
{
    let counted = "Total: "@ + human_text(root.size) + " ("@ + decimal_text(root.size as nat)
        + " bytes)  files: "@ + decimal_text(file_total(root)) + "  dirs: "@ + decimal_text(
        dir_total(root),
    );
    assert(counted + Seq::<char>::empty() =~= counted);
}

/// An entry is named by the last part of its path, or by the whole path where that has
/// none.
pub proof fn entries_are_named_by_their_last_part(path: Seq<char>)
    ensures
        file_name_of(path) matches Some(n) ==> shown_name(path) == n,
        file_name_of(path) is None ==> shown_name(path) == path,
{
}

} // verus!
