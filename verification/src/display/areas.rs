//! How the area of a treemap is given to the entries.

use vstd::prelude::*;

use crate::cli::{SortBy, SortOrder};
use crate::display::outline::listing_is_sorted;
use crate::display::treemap::{
    block_cell, blocks_inside, blocks_stay_inside, body_of, by_size, color_for, layout_blocks,
    map_blocks, mapped, mapped_children, runs, size_column, split_from, with_blocks, with_text,
    with_treemap, BlockView, CellView,
};
use crate::display::{human_text, sorted_nodes, RenderOptions};
use crate::layout::Rect;
use crate::shares::{larger_shares_take_no_fewer_cells, shares_take_the_nearest_number_of_cells};
use crate::style::{line_text, Style};
use crate::walker::{total_size, Node};

verus! {

/// Whether `n` of `extent` cells are the share that a part has in a whole.
///
/// The share is held between five and ninety-five hundredths. The number of cells is the
/// nearest to it, up to a thousandth of a cell, but leaves one cell at least on either
/// side; so it is never more than one cell off. A part that is at least as large as what
/// is left of the whole has at least as many cells as are left.
pub open spec fn is_fair(n: int, extent: int, part: int, whole: int) -> bool {
    let (up, down) = if part * 20 < whole {
        (1, 20)
    } else if part * 20 > whole * 19 {
        (19, 20)
    } else {
        (part, whole)
    };
    &&& 1 <= n <= extent - 1
    &&& n * down - extent * up <= down
    &&& extent * up - n * down <= down
    &&& n > 1 ==> 1000 * (n * down) <= 1000 * (extent * up) + 501 * down
    &&& n < extent - 1 ==> 1000 * (n * down) >= 1000 * (extent * up) - 501 * down
    &&& 2 * part >= whole ==> n >= extent - n
}

/// Whether the first `k` entries are the first of two groups: no fewer of them are half of
/// the whole, and they are, unless only one entry is left.
pub open spec fn is_first_group(items: Seq<Node>, k: int) -> bool {
    let half = total_size(items) / 2;
    &&& 1 <= k <= items.len() - 1
    &&& k == items.len() - 1 || total_size(items.take(k)) >= half
    &&& forall|j: int| 1 <= j < k ==> total_size(#[trigger] items.take(j)) < half
}

/// Whether two areas are the parts of an area that a split gives to a part of a whole and
/// to what is left: side by side where the area is more than twice as wide as it is high,
/// else one above the other.
pub open spec fn is_split(r: Rect, first: Rect, second: Rect, part: int, whole: int) -> bool {
    if r.width > 2 * r.height {
        &&& is_fair(first.width as int, r.width as int, part, whole)
        &&& first == (Rect { width: first.width, ..r })
        &&& second.x == r.x + first.width
        &&& second.width == r.width - first.width
        &&& second.y == r.y
        &&& second.height == r.height
    } else {
        &&& is_fair(first.height as int, r.height as int, part, whole)
        &&& first == (Rect { height: first.height, ..r })
        &&& second.y == r.y + first.height
        &&& second.height == r.height - first.height
        &&& second.x == r.x
        &&& second.width == r.width
    }
}

proof fn lemma_fair(extent: u16, part: nat, whole: nat)
    requires
        2 <= extent,
        0 < part <= whole <= u64::MAX,
    ensures
        is_fair(
            crate::display::treemap::first_extent(extent, part, whole) as int,
            extent as int,
            part as int,
            whole as int,
        ),
{
    let e = extent as nat;
    shares_take_the_nearest_number_of_cells(e, part, whole);
    if whole <= 2 * part {
        larger_shares_take_no_fewer_cells(e, part, whole);
    }
    let c = crate::binary64::share_cells(e, part, whole) as int;
    let (up, down) = crate::shares::held_share(part, whole);
    let n = crate::display::treemap::first_extent(extent, part, whole) as int;
    let (eu, cd) = (e * up, c * down);
    assert(0 < up <= down);
    assert(eu <= e * down) by (nonlinear_arith)
        requires
            eu == e * up,
            up <= down,
    ;
    let nd = n * down;
    if c < 1 {
        assert(cd == 0) by (nonlinear_arith)
            requires
                cd == c * down,
                c == 0,
        ;
        assert(nd == down) by (nonlinear_arith)
            requires
                nd == n * down,
                n == 1,
        ;
    } else if c > extent - 1 {
        assert(cd >= e * down) by (nonlinear_arith)
            requires
                cd == c * down,
                c >= e,
                down > 0,
        ;
        assert(nd == e * down - down) by (nonlinear_arith)
            requires
                nd == n * down,
                n == e - 1,
        ;
    }
}

proof fn lemma_split_from(items: Seq<Node>, k: nat)
    requires
        1 <= k < items.len(),
        forall|j: int| 1 <= j < k ==> total_size(#[trigger] items.take(j)) < total_size(items) / 2,
    ensures
        is_first_group(items, split_from(items, k) as int),
    decreases items.len() - k,
{
    if k + 1 >= items.len() || total_size(items.take(k as int)) >= total_size(items) / 2 {
    } else {
        lemma_split_from(items, k + 1);
    }
}

proof fn lemma_take_total(items: Seq<Node>, k: int)
    requires
        0 < k <= items.len(),
        items[0].size > 0,
    ensures
        0 < total_size(items.take(k)) <= total_size(items),
    decreases items.len(),
{
    if k == items.len() {
        assert(items.take(k) =~= items);
        if items.len() > 1 {
            lemma_take_total(items.drop_last(), k - 1);
            assert(items.drop_last()[0] == items[0]);
            assert(items.drop_last().take(k - 1) =~= items.drop_last());
        } else {
            assert(items.last() == items[0]);
        }
    } else {
        assert(items.drop_last()[0] == items[0]);
        lemma_take_total(items.drop_last(), k);
        assert(items.drop_last().take(k) =~= items.take(k));
    }
}

/// Several entries are laid out as two groups, each in its part of the area: the first
/// group has the share of the cells that its entries have in the sizes.
pub proof fn groups_share_the_area(items: Seq<Node>, r: Rect, depth: nat, opts: RenderOptions)
    requires
        r.fits(),
        r.width >= 3,
        r.height >= 2,
        items.len() >= 2,
        items[0].size > 0,
        total_size(items) <= u64::MAX,
    ensures
        exists|k: int, first: Rect, second: Rect|
            {
                &&& is_first_group(items, k)
                &&& #[trigger] is_split(
                    r,
                    first,
                    second,
                    total_size(#[trigger] items.take(k)) as int,
                    total_size(items) as int,
                )
                &&& layout_blocks(items, r, depth, opts) == layout_blocks(
                    items.take(k),
                    first,
                    depth,
                    opts,
                ) + layout_blocks(items.skip(k), second, depth, opts)
            },
{
    let k = split_from(items, 1) as int;
    lemma_split_from(items, 1);
    lemma_take_total(items, k);
    let part = total_size(items.take(k));
    let whole = total_size(items);
    let first = crate::display::treemap::first_part(r, part, whole);
    let second = crate::display::treemap::second_part(r, part, whole);
    lemma_fair(r.width, part, whole);
    lemma_fair(r.height, part, whole);
    assert(is_split(r, first, second, part as int, whole as int));
}

/// An entry that is alone fills the area; what is in it is laid out inside.
pub proof fn an_only_entry_fills_the_area(n: Node, r: Rect, depth: nat, opts: RenderOptions)
    requires
        r.width >= 3,
        r.height >= 2,
    ensures
        ({
            let bs = layout_blocks(seq![n], r, depth, opts);
            &&& bs.len() >= 1
            &&& bs[0].node == n
            &&& bs[0].rect == r
            &&& !n.is_dir || depth + 1 >= opts.depth || r.width < 8 || r.height < 5 ==> bs.len()
                == 1
        }),
{
    reveal_with_fuel(blocks_inside, 2);
    let inner = blocks_inside(n, r, depth, opts);
    assert(layout_blocks(seq![n], r, depth, opts) == seq![BlockView { node: n, rect: r }] + inner);
}

/// An area of less than three columns or two rows has no blocks.
pub proof fn tiny_areas_stay_empty(items: Seq<Node>, r: Rect, depth: nat, opts: RenderOptions)
    requires
        r.width < 3 || r.height < 2,
    ensures
        layout_blocks(items, r, depth, opts).len() == 0,
{
}

/// Two entries of which the first is not the smaller have two blocks, where both are
/// large enough to be drawn: next to each other along the longer side, the first with its
/// share of the cells, and not fewer than the second.
pub proof fn two_entries_share_the_area(
    a: Node,
    b: Node,
    r: Rect,
    depth: nat,
    opts: RenderOptions,
)
    requires
        r.fits(),
        r.width >= 3,
        r.height >= 2,
        a.size > 0,
        a.size >= b.size,
        a.size + b.size <= u64::MAX,
        (!a.is_dir && !b.is_dir) || depth + 1 >= opts.depth,
    ensures
        ({
            let bs = layout_blocks(seq![a, b], r, depth, opts);
            bs.len() == 2 ==> {
                let (p, q) = (bs[0].rect, bs[1].rect);
                &&& bs[0].node == a
                &&& bs[1].node == b
                &&& if r.width > 2 * r.height {
                    &&& is_fair(p.width as int, r.width as int, a.size as int, a.size + b.size)
                    &&& p.width >= q.width
                    &&& p.width + q.width == r.width
                    &&& p.x == r.x && q.x == r.x + p.width
                    &&& p.y == r.y && q.y == r.y
                    &&& p.height == r.height && q.height == r.height
                } else {
                    &&& is_fair(p.height as int, r.height as int, a.size as int, a.size + b.size)
                    &&& p.height >= q.height
                    &&& p.height + q.height == r.height
                    &&& p.y == r.y && q.y == r.y + p.height
                    &&& p.x == r.x && q.x == r.x
                    &&& p.width == r.width && q.width == r.width
                }
            }
        }),
{
    let items = seq![a, b];
    let bs = layout_blocks(items, r, depth, opts);
    assert(items.take(1) =~= seq![a]);
    assert(items.skip(1) =~= seq![b]);
    assert(items.drop_last() =~= seq![a]);
    assert(seq![a].drop_last() =~= Seq::<Node>::empty());
    assert(total_size(Seq::<Node>::empty()) == 0);
    assert(total_size(seq![a]) == a.size);
    assert(total_size(items) == a.size + b.size);
    groups_share_the_area(items, r, depth, opts);
    let (k, first, second) = choose|k: int, first: Rect, second: Rect|
        {
            &&& is_first_group(items, k)
            &&& #[trigger] is_split(
                r,
                first,
                second,
                total_size(#[trigger] items.take(k)) as int,
                total_size(items) as int,
            )
            &&& layout_blocks(items, r, depth, opts) == layout_blocks(
                items.take(k),
                first,
                depth,
                opts,
            ) + layout_blocks(items.skip(k), second, depth, opts)
        };
    assert(k == 1);
    let x = layout_blocks(seq![a], first, depth, opts);
    let y = layout_blocks(seq![b], second, depth, opts);
    if first.width >= 3 && first.height >= 2 {
        an_only_entry_fills_the_area(a, first, depth, opts);
    } else {
        tiny_areas_stay_empty(seq![a], first, depth, opts);
    }
    if second.width >= 3 && second.height >= 2 {
        an_only_entry_fills_the_area(b, second, depth, opts);
    } else {
        tiny_areas_stay_empty(seq![b], second, depth, opts);
    }
    if bs.len() == 2 {
        assert(bs[0] == x[0]);
        assert(bs[1] == y[0]);
    }
}

/// Whether an entry has a block of its own: it holds anything, is large enough, and is a
/// directory unless files are shown.
pub open spec fn has_a_block(c: Node, opts: RenderOptions) -> bool {
    c.size > 0 && c.size >= opts.min_size && (opts.show_files || c.is_dir)
}

/// Whether `items` are the entries of a directory that have blocks, the larger ones first.
pub open spec fn are_largest_first(items: Seq<Node>, n: Node, opts: RenderOptions) -> bool {
    &&& items.to_multiset() == n.children@.filter(
        |c: Node| has_a_block(c, opts),
    ).to_multiset()
    &&& forall|i: int, j: int|
        0 <= i < j < items.len() ==> (#[trigger] items[i]).size >= (#[trigger] items[j]).size
}

proof fn lemma_mapped(n: Node, opts: RenderOptions)
    ensures
        mapped_children(n, opts) == n.children@.filter(|c: Node| has_a_block(c, opts)),
{
    let p = |c: Node| mapped(c, opts);
    let q = |c: Node| has_a_block(c, opts);
    assert(p =~= q);
}

/// What is in a directory is laid out inside its block, below its name and its size and
/// within its border, as deep as is asked for and where there is room.
pub proof fn directories_are_laid_out_inside(n: Node, r: Rect, depth: nat, opts: RenderOptions)
    requires
        r.fits(),
        r.width >= 8,
        r.height >= 5,
        n.is_dir,
        depth + 1 < opts.depth,
    ensures
        exists|items: Seq<Node>|
            #[trigger] are_largest_first(items, n, opts) && layout_blocks(
                seq![n],
                r,
                depth,
                opts,
            ) == seq![BlockView { node: n, rect: r }] + layout_blocks(
                items,
                (Rect {
                    x: (r.x + 1) as u16,
                    y: (r.y + 3) as u16,
                    width: (r.width - 2) as u16,
                    height: (r.height - 4) as u16,
                }),
                depth + 1,
                opts,
            ),
{
    let items = by_size(mapped_children(n, opts));
    listing_is_sorted(mapped_children(n, opts), SortBy::Size, SortOrder::Desc);
    lemma_mapped(n, opts);
    assert forall|i: int, j: int| 0 <= i < j < items.len() implies (#[trigger] items[i]).size >= (
    #[trigger] items[j]).size by {
        assert(crate::display::outline::may_come_first(
            items[i],
            items[j],
            SortBy::Size,
            SortOrder::Desc,
        ));
    }
    assert(are_largest_first(items, n, opts));
    reveal_with_fuel(blocks_inside, 2);
    let inner = blocks_inside(n, r, depth, opts);
    assert(layout_blocks(seq![n], r, depth, opts) == seq![BlockView { node: n, rect: r }] + inner);
}

/// The blocks of a whole treemap are those of the entries of its root, in all of the area
/// but the first row.
pub proof fn the_map_fills_the_body(n: Node, opts: RenderOptions, area: Rect)
    requires
        area.fits(),
        area.height > 0,
        n.is_dir,
    ensures
        exists|items: Seq<Node>|
            #[trigger] are_largest_first(items, n, opts) && map_blocks(n, opts, area)
                == layout_blocks(
                items,
                (Rect { y: (area.y + 1) as u16, height: (area.height - 1) as u16, ..area }),
                0,
                opts,
            ),
{
    let m = mapped_children(n, opts);
    let t = sorted_nodes(m, opts.sort, opts.sort_order);
    let items = by_size(t);
    listing_is_sorted(m, opts.sort, opts.sort_order);
    listing_is_sorted(t, SortBy::Size, SortOrder::Desc);
    lemma_mapped(n, opts);
    assert forall|i: int, j: int| 0 <= i < j < items.len() implies (#[trigger] items[i]).size >= (
    #[trigger] items[j]).size by {
        assert(crate::display::outline::may_come_first(
            items[i],
            items[j],
            SortBy::Size,
            SortOrder::Desc,
        ));
    }
    assert(are_largest_first(items, n, opts));
}

/// A block of at least six columns and three rows has corners, its entry's name in its
/// middle row or the one above, and, with four rows, the size below it. A name that is too
/// long is cut off with an ellipsis.
pub proof fn a_block_says_what_it_is(c: CellView, n: Node, r: Rect, i: int)
    requires
        r.fits(),
        r.width >= 6,
        r.height >= 3,
    ensures
        ({
            let b = BlockView { node: n, rect: r };
            let right = r.x + r.width - 1;
            let bottom = r.y + r.height - 1;
            let room = r.width - 2;
            let row = if r.height >= 4 {
                r.y + 1 + (r.height - 4) / 2
            } else {
                r.y + 1
            };
            let size = human_text(n.size);
            &&& block_cell(c, b, r.x as int, r.y as int).symbol == seq!['┌']
            &&& block_cell(c, b, right, r.y as int).symbol == seq!['┐']
            &&& block_cell(c, b, r.x as int, bottom).symbol == seq!['└']
            &&& block_cell(c, b, right, bottom).symbol == seq!['┘']
            &&& n.name@.len() <= room && 0 <= i < n.name@.len() ==> block_cell(
                c,
                b,
                r.x + 1 + (room - n.name@.len()) / 2 + i,
                row,
            ).symbol == seq![n.name@[i]]
            &&& n.name@.len() > room && 0 <= i < room - 1 ==> block_cell(
                c,
                b,
                r.x + 1 + i,
                row,
            ).symbol == seq![n.name@[i]]
            &&& n.name@.len() > room ==> block_cell(c, b, right - 1, row).symbol == seq!['…']
            &&& r.height >= 4 && size.len() <= room && 0 <= i < size.len() ==> block_cell(
                c,
                b,
                r.x + 1 + (room - size.len()) / 2 + i,
                row + 1,
            ).symbol == seq![size[i]]
        }),
{
}

/// A block that is too small for that is shaded, and no block touches what is outside.
pub proof fn blocks_stay_in_their_cells(c: CellView, b: BlockView, x: int, y: int)
    ensures
        !b.rect.has(x, y) ==> block_cell(c, b, x, y) == c,
        b.rect.has(x, y) && b.rect.width >= 3 && b.rect.height >= 2 && (b.rect.width < 6
            || b.rect.height < 3) ==> block_cell(c, b, x, y).symbol == seq!['░'],
{
}

/// The symbols of some cells, one after the other.
pub open spec fn symbols(cells: Seq<CellView>) -> Seq<char>
    decreases cells.len(),
{
    if cells.len() == 0 {
        Seq::empty()
    } else {
        symbols(cells.drop_last()) + cells.last().symbol
    }
}

/// A row of a treemap says what its cells hold.
pub proof fn rows_say_what_cells_hold(cells: Seq<CellView>)
    ensures
        line_text(runs(cells)) == symbols(cells),
        cells.len() > 0 ==> runs(cells).len() > 0,
    decreases cells.len(),
{
    if cells.len() > 0 {
        rows_say_what_cells_hold(cells.drop_last());
        let d = runs(cells.drop_last());
        let r = runs(cells);
        let c = cells.last();
        if cells.len() >= 2 && crate::display::treemap::styles_eq(cells[cells.len() - 2], c) {
            assert(r.drop_last() =~= d.drop_last());
            assert(line_text(r) =~= line_text(d) + c.symbol);
        } else {
            assert(r.drop_last() =~= d);
        }
    }
}

/// The first row of a treemap says the path of its root and, after two blanks, its size,
/// as far as there is room.
pub proof fn the_map_says_its_root(
    cells: Map<(int, int), CellView>,
    n: Node,
    opts: RenderOptions,
    area: Rect,
    i: int,
)
    requires
        area.fits(),
        area.width > 0,
        area.height > 0,
        area.x + n.path@.len() + 2 <= 65535,
        forall|x: int, y: int| area.has(x, y) ==> #[trigger] cells.contains_key((x, y)),
    ensures
        ({
            let drawn = with_treemap(cells, n, opts, area);
            let len = n.path@.len() as int;
            let size = human_text(n.size);
            let end = area.x + area.width;
            let at = |k: int| drawn[(area.x + k, area.y as int)];
            &&& 0 <= i < len && area.x + i < end ==> at(i).symbol == seq![n.path@[i]]
            &&& 0 <= i < size.len() && area.x + len + 2 + i < end ==> at(len + 2 + i).symbol
                == seq![size[i]]
        }),
{
    let len = n.path@.len() as int;
    let size = human_text(n.size);
    let end = area.x + area.width;
    let y = area.y as int;
    let titled = with_text(cells, n.path@, area.x as int, y, end, Style::plain().bold());
    let at = size_column(area, n.path@.len()) as int;
    let headed = with_text(titled, size, at, y, end, color_for(n.size, n.is_dir));
    let bs = map_blocks(n, opts, area);
    assert(at == area.x + len + 2);
    assert(body_of(area).fits());
    blocks_stay_inside(
        by_size(sorted_nodes(mapped_children(n, opts), opts.sort, opts.sort_order)),
        body_of(area),
        0,
        opts,
    );
    assert forall|j: int| 0 <= j < bs.len() implies (#[trigger] bs[j]).rect.y > y by {
        assert(bs[j].rect.within(body_of(area)));
    }
    if 0 <= i < len && area.x + i < end {
        let p = (area.x + i, y);
        assert(area.has(p.0, p.1));
        assert(cells.contains_key(p));
        lemma_untouched(headed, bs, p);
    }
    if 0 <= i < size.len() && area.x + len + 2 + i < end {
        let p = (area.x + len + 2 + i, y);
        assert(area.has(p.0, p.1));
        assert(cells.contains_key(p));
        lemma_untouched(headed, bs, p);
    }
}

proof fn lemma_untouched(cells: Map<(int, int), CellView>, bs: Seq<BlockView>, p: (int, int))
    requires
        cells.contains_key(p),
        forall|j: int| 0 <= j < bs.len() ==> (#[trigger] bs[j]).rect.y > p.1,
    ensures
        with_blocks(cells, bs).contains_key(p),
        with_blocks(cells, bs)[p] == cells[p],
    decreases bs.len(),
{
    if bs.len() > 0 {
        let d = bs.drop_last();
        assert forall|j: int| 0 <= j < d.len() implies (#[trigger] d[j]).rect.y > p.1 by {
            assert(d[j] == bs[j]);
        }
        lemma_untouched(cells, d, p);
        assert(bs[bs.len() - 1].rect.y > p.1);
    }
}

} // verus!
