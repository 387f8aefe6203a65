//! The tree as an indented hierarchy.

use vstd::prelude::*;

use crate::display::{
    dim_style, header, header_row, human_text, listed_children, modified_columns, name_span,
    name_style, node_row, nodes_of, push_modified, push_row, push_summary, row_views, size_span,
    size_style, sort_nodes, sorted_nodes, summary_rows, visible_children, RenderOptions, Row,
    RowView,
};
use crate::style::{sp, Line, Style};
use crate::walker::Node;

verus! {

/// The children of a node in the order in which they are listed.
pub open spec fn ordered_children(n: Node, opts: RenderOptions) -> Seq<Node> {
    sorted_nodes(listed_children(n, opts), opts.sort, opts.sort_order)
}

/// The indentation below ancestors, each of which has siblings after it or
/// not.
pub open spec fn indent(more: Seq<bool>) -> Seq<char>
    decreases more.len(),
{
    if more.len() == 0 {
        Seq::empty()
    } else {
        indent(more.drop_last()) + (if more.last() {
            "│   "@
        } else {
            "    "@
        })
    }
}

/// The row of a child.
pub open spec fn child_row(c: Node, last: bool, more: Seq<bool>, opts: RenderOptions) -> RowView {
    node_row(
        seq![
            sp(indent(more), dim_style(opts.theme)),
            sp(
                if last {
                    "└── "@
                } else {
                    "├── "@
                },
                dim_style(opts.theme),
            ),
            sp(c.name@, name_style(c, opts.theme)),
            sp("  "@, Style::plain()),
            sp(human_text(c.size), size_style(opts.theme, c.size)),
        ] + modified_columns(c, opts),
        c,
    )
}

/// The rows below a node at `depth`: every child with what is below it.
pub open spec fn rows_below(n: Node, depth: nat, more: Seq<bool>, opts: RenderOptions) -> Seq<
    RowView,
>
    decreases opts.depth - depth, 1nat, 0nat,
{
    let items = ordered_children(n, opts);
    if depth >= opts.depth {
        Seq::empty()
    } else {
        rows_of_first(items, items.len(), depth, more, opts)
    }
}

/// The rows of the first `k` of some siblings at `depth`, with what is below
/// them.
pub open spec fn rows_of_first(
    items: Seq<Node>,
    k: nat,
    depth: nat,
    more: Seq<bool>,
    opts: RenderOptions,
) -> Seq<RowView>
    decreases opts.depth - depth, 0nat, k,
{
    if k == 0 || depth >= opts.depth {
        Seq::empty()
    } else {
        let c = items[k - 1];
        let last = k == items.len();
        rows_of_first(items, (k - 1) as nat, depth, more, opts).push(
            child_row(c, last, more, opts),
        ) + (if c.is_dir {
            rows_below(c, depth + 1, more.push(!last), opts)
        } else {
            Seq::empty()
        })
    }
}

/// All rows: the root, what is below it, and the summary of hidden entries.
pub open spec fn tree_rows(root: Node, opts: RenderOptions) -> Seq<RowView> {
    seq![header_row(root, root.path@, opts.theme)] + (if root.is_dir {
        rows_below(root, 0, Seq::empty(), opts)
    } else {
        Seq::empty()
    }) + summary_rows(opts, root.size)
}

/// The tree as rows.
pub fn render(root: &Node, opts: &RenderOptions) -> (r: Vec<Row>)
    ensures
        row_views(r@) == tree_rows(*root, *opts),
{
    let mut rows: Vec<Row> = Vec::new();
    assert(row_views(rows@) =~= Seq::<RowView>::empty());
    push_row(&mut rows, header(root, &root.path, opts.theme));
    let ghost first = row_views(rows@);
    assert(first =~= seq![header_row(*root, root.path@, opts.theme)]);
    if root.is_dir && opts.depth > 0 {
        let mut stack: Vec<bool> = Vec::new();
        assert(stack@ =~= Seq::<bool>::empty());
        render_children(root, 0, opts, &mut stack, &mut rows);
    } else {
        assert(first =~= first + Seq::<RowView>::empty());
    }
    push_summary(&mut rows, opts, root.size);
    rows
}

fn indentation(stack: &Vec<bool>) -> (r: String)
    ensures
        r@ == indent(stack@),
{
    let mut prefix = String::new();
    let mut i: usize = 0;
    assert(stack@.take(0) =~= Seq::<bool>::empty());
    while i < stack.len()
        invariant
            i <= stack@.len(),
            prefix@ == indent(stack@.take(i as int)),
        decreases stack@.len() - i,
    {
        if stack[i] {
            prefix.append("│   ");
        } else {
            prefix.append("    ");
        }
        i = i + 1;
        assert(stack@.take(i as int).drop_last() =~= stack@.take(i - 1));
    }
    assert(stack@.take(i as int) =~= stack@);
    prefix
}

fn render_child(c: &Node, last: bool, stack: &Vec<bool>, opts: &RenderOptions) -> (r: Row)
    ensures
        r@ == child_row(*c, last, stack@, *opts),
{
    let mut line = Line::new();
    line.push(indentation(stack), dim_style(opts.theme));
    let branch: &str = if last {
        "└── "
    } else {
        "├── "
    };
    line.push_str(branch, dim_style(opts.theme));
    line.push_span(name_span(c, opts.theme));
    line.push_str("  ", Style::plain());
    line.push_span(size_span(c, opts.theme));
    push_modified(&mut line, c, opts);
    let r = Row::of_node(line, c);
    assert(r@.line =~= child_row(*c, last, stack@, *opts).line);
    r
}

fn render_children(
    node: &Node,
    current_depth: usize,
    opts: &RenderOptions,
    prefix_stack: &mut Vec<bool>,
    out: &mut Vec<Row>,
)
    ensures
        row_views(final(out)@) == row_views(old(out)@) + rows_below(
            *node,
            current_depth as nat,
            old(prefix_stack)@,
            *opts,
        ),
        final(prefix_stack)@ == old(prefix_stack)@,
    decreases opts.depth - current_depth,
{
    let ghost start = row_views(out@);
    let ghost more = prefix_stack@;
    let ghost depth = current_depth as nat;
    if current_depth >= opts.depth {
        assert(start =~= start + Seq::<RowView>::empty());
        return;
    }
    let mut visible = visible_children(node, opts);
    sort_nodes(&mut visible, opts.sort, opts.sort_order);
    let ghost items = ordered_children(*node, *opts);
    let count: usize = visible.len();
    assert(count == nodes_of(visible@).len());
    let mut idx: usize = 0;
    assert(start =~= start + rows_of_first(items, 0, depth, more, *opts));
    while idx < count
        invariant
            idx <= count,
            count == visible@.len(),
            nodes_of(visible@) == items,
            items == ordered_children(*node, *opts),
            current_depth < opts.depth,
            depth == current_depth,
            prefix_stack@ == more,
            row_views(out@) == start + rows_of_first(items, idx as nat, depth, more, *opts),
        decreases count - idx,
    {
        let child = visible[idx];
        let last = idx + 1 == count;
        let ghost before = row_views(out@);
        let ghost done = rows_of_first(items, idx as nat, depth, more, *opts);
        assert(*child == items[idx as int]);
        push_row(out, render_child(child, last, prefix_stack, opts));
        let ghost with_child = row_views(out@);
        if child.is_dir {
            prefix_stack.push(!last);
            render_children(child, current_depth + 1, opts, prefix_stack, out);
            let _ = prefix_stack.pop();
            assert(prefix_stack@ =~= more);
        } else {
            assert(with_child =~= with_child + Seq::<RowView>::empty());
        }
        idx = idx + 1;
        assert(row_views(out@) =~= start + rows_of_first(items, idx as nat, depth, more, *opts));
    }
}

} // verus!
