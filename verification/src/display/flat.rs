//! The files of the tree as one list.

use vstd::prelude::*;

use crate::display::{
    dim_style, header, header_row, human_size, human_text, modified_columns, node_row, nodes_of,
    push_modified, push_row, push_summary, row_views, size_style, sort_nodes, sorted_nodes,
    summary_rows, RenderOptions, Row, RowView,
};
use crate::lists::{lemma_filter_all, lemma_filter_none, lemma_filter_step};
use crate::paths::{
    below, first_component, first_component_of, relative_path, relative_text, strip_prefix,
};
use crate::style::{sp, Line, Style};
use crate::text::{pad_start, padded_start, starts_with, starts_with_char};
use crate::walker::{files_of, Node};

verus! {

/// Whether a path lies in a hidden entry directly below the root.
pub open spec fn in_hidden(path: Seq<char>, root: Seq<char>) -> bool {
    match below(path, root) {
        Some(rel) => match first_component_of(rel) {
            Some(first) => starts_with(first, '.'),
            None => false,
        },
        None => false,
    }
}

/// Whether a file is listed: large enough, and neither hidden nor below a
/// hidden directory where hidden entries are left out.
pub open spec fn flat_listed(f: Node, root: Node, opts: RenderOptions) -> bool {
    f.size >= opts.min_size && (opts.hidden_summary is None || (!starts_with(f.name@, '.')
        && !in_hidden(f.path@, root.path@)))
}

/// The listed files in the order asked for.
pub open spec fn flat_files(root: Node, opts: RenderOptions) -> Seq<Node> {
    sorted_nodes(
        files_of(root).filter(|f: Node| flat_listed(f, root, opts)),
        opts.sort,
        opts.sort_order,
    )
}

/// The row of a file.
pub open spec fn file_row(f: Node, root: Node, opts: RenderOptions) -> RowView {
    RowView {
        is_dir: false,
        ..node_row(
            seq![
                sp(padded_start(human_text(f.size), 12), size_style(opts.theme, f.size)),
                sp("  "@, Style::plain()),
                sp(relative_text(f.path@, root.path@), dim_style(opts.theme)),
            ] + modified_columns(f, opts),
            f,
        )
    }
}

/// All rows: the root, its files, and the summary of hidden entries.
pub open spec fn flat_rows(root: Node, opts: RenderOptions) -> Seq<RowView> {
    seq![header_row(root, root.path@ + " (flat files)"@, opts.theme)] + flat_files(
        root,
        opts,
    ).map_values(|f: Node| file_row(f, root, opts)) + summary_rows(opts, root.size)
}

fn is_listed(f: &Node, root: &Node, opts: &RenderOptions) -> (r: bool)
    ensures
        r == flat_listed(*f, *root, *opts),
{
    if f.size < opts.min_size {
        return false;
    }
    if opts.hidden_summary.is_none() {
        return true;
    }
    if starts_with_char(&f.name, '.') {
        return false;
    }
    match strip_prefix(&f.path, &root.path) {
        Some(rel) => match first_component(&rel) {
            Some(first) => !starts_with_char(&first, '.'),
            None => true,
        },
        None => true,
    }
}

fn render_file(f: &Node, root: &Node, opts: &RenderOptions) -> (r: Row)
    ensures
        r@ == file_row(*f, *root, *opts),
{
    let mut line = Line::new();
    line.push(pad_start(&human_size(f.size), 12), size_style(opts.theme, f.size));
    line.push_str("  ", Style::plain());
    line.push(relative_path(&f.path, &root.path), dim_style(opts.theme));
    push_modified(&mut line, f, opts);
    let mut r = Row::of_node(line, f);
    r.is_dir = false;
    assert(r@.line =~= file_row(*f, *root, *opts).line);
    r
}

/// The files of the tree as rows.
pub fn render(root: &Node, opts: &RenderOptions) -> (r: Vec<Row>)
    ensures
        row_views(r@) == flat_rows(*root, *opts),
{
    let mut rows: Vec<Row> = Vec::new();
    assert(row_views(rows@) =~= Seq::<RowView>::empty());
    let mut title = root.path.clone();
    title.append(" (flat files)");
    push_row(&mut rows, header(root, &title, opts.theme));
    let ghost first = row_views(rows@);
    assert(first =~= seq![header_row(*root, root.path@ + " (flat files)"@, opts.theme)]);

    let all_v = root.all_files();
    let ghost all = nodes_of(all_v@);
    assert(all =~= files_of(*root));
    let ghost pred = |f: Node| flat_listed(f, *root, *opts);
    let mut files: Vec<&Node> = Vec::new();
    let mut i: usize = 0;
    proof {
        lemma_filter_none(all, pred);
        assert(nodes_of(files@) =~= Seq::<Node>::empty());
    }
    while i < all_v.len()
        invariant
            i <= all_v@.len(),
            all == nodes_of(all_v@),
            pred == (|f: Node| flat_listed(f, *root, *opts)),
            nodes_of(files@) == all.take(i as int).filter(pred),
        decreases all_v@.len() - i,
    {
        proof {
            lemma_filter_step(all, i as int, pred);
        }
        let ghost before = nodes_of(files@);
        let f = all_v[i];
        assert(*f == all[i as int]);
        if is_listed(f, root, opts) {
            files.push(f);
            assert(nodes_of(files@) =~= before.push(*f));
        }
        i = i + 1;
    }
    proof {
        lemma_filter_all(all, pred);
        assert(all.len() == i);
    }
    sort_nodes(&mut files, opts.sort, opts.sort_order);
    let ghost sorted = flat_files(*root, *opts);
    let ghost listing = sorted.map_values(|f: Node| file_row(f, *root, *opts));
    let mut j: usize = 0;
    assert(files@.len() == nodes_of(files@).len());
    assert(first =~= first + listing.take(0));
    while j < files.len()
        invariant
            j <= files@.len(),
            nodes_of(files@) == sorted,
            files@.len() == sorted.len(),
            listing == sorted.map_values(|f: Node| file_row(f, *root, *opts)),
            row_views(rows@) == first + listing.take(j as int),
        decreases files@.len() - j,
    {
        let f = files[j];
        assert(*f == sorted[j as int]);
        let row = render_file(f, root, opts);
        push_row(&mut rows, row);
        j = j + 1;
        assert(listing.take(j as int) =~= listing.take(j - 1).push(row@));
        assert(row_views(rows@) =~= first + listing.take(j as int));
    }
    assert(listing.take(j as int) =~= listing);
    push_summary(&mut rows, opts, root.size);
    rows
}

} // verus!
