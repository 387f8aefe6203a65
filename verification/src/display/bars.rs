//! The entries of a directory as horizontal bars.

use vstd::prelude::*;

use crate::binary64::{percent, percent_scaled, scaled, tenths, tenths_text};
use crate::bytes::{before, byte_len, length, locate, on_boundary, prefix_ends_on_boundary};
use crate::cli::{SortBy, SortOrder};
use crate::display::{
    dim_style, file_style, header, header_row, human_size, human_text, listed_children,
    modified_columns, name_style, node_key, nodes_of, push_modified, push_row, row_views,
    size_style, style_of_name, visible_children, RenderOptions, Row, RowView,
};
use crate::order::{key_views, order_of, picked, positions, stable_order, Key, KeyView};
use crate::style::{sp, Line, SpanView, Style};
use crate::text::{
    chars_of, lowercase, number_text, pad_end, pad_start, padded_end, padded_start, push_char,
    repeat_char, repeated, take_chars,
};
use crate::walker::Node;

verus! {

/// What a bar stands for: an entry, or all hidden ones together.
enum Entry<'a> {
    Real(&'a Node),
    Hidden { size: u64 },
}

/// The mathematical form of what a bar stands for.
pub enum BarItem {
    Real(Node),
    Hidden(u64),
}

impl<'a> View for Entry<'a> {
    type V = BarItem;

    closed spec fn view(&self) -> BarItem {
        match *self {
            Entry::Real(n) => BarItem::Real(*n),
            Entry::Hidden { size } => BarItem::Hidden(size),
        }
    }
}

spec fn item_views(v: Seq<Entry<'_>>) -> Seq<BarItem> {
    v.map_values(|e: Entry<'_>| e@)
}

/// The size that a bar shows.
pub open spec fn item_size(item: BarItem) -> u64 {
    match item {
        BarItem::Real(n) => n.size,
        BarItem::Hidden(size) => size,
    }
}

/// What a bar is sorted by.
pub open spec fn item_key(item: BarItem, sort: SortBy) -> KeyView {
    match item {
        BarItem::Real(n) => node_key(n, sort),
        BarItem::Hidden(size) => match sort {
            SortBy::Size => KeyView::Size(size as nat),
            SortBy::Name => KeyView::Name("hidden items"@),
        },
    }
}

/// What bars are sorted by.
pub open spec fn item_keys(items: Seq<BarItem>, sort: SortBy) -> Seq<KeyView> {
    items.map_values(|item: BarItem| item_key(item, sort))
}

/// The bars before they are sorted: the listed children, and one for the
/// hidden entries where they are left out.
pub open spec fn unsorted_items(root: Node, opts: RenderOptions) -> Seq<BarItem> {
    listed_children(root, opts).map_values(|n: Node| BarItem::Real(n)) + (
    match opts.hidden_summary {
        Some((count, size)) => if count > 0 {
            seq![BarItem::Hidden(size)]
        } else {
            Seq::empty()
        },
        None => Seq::empty(),
    })
}

/// The bars in the order asked for.
pub open spec fn bar_items(root: Node, opts: RenderOptions) -> Seq<BarItem> {
    let items = unsorted_items(root, opts);
    picked(items, stable_order(item_keys(items, opts.sort), opts.sort_order == SortOrder::Desc))
}

/// The largest size among bars, at least one.
pub open spec fn largest(items: Seq<BarItem>) -> u64
    decreases items.len(),
{
    if items.len() == 0 {
        1
    } else {
        let m = largest(items.drop_last());
        if item_size(items.last()) > m {
            item_size(items.last())
        } else {
            m
        }
    }
}

/// The columns that are left for bars.
pub open spec fn bar_columns(width: u16) -> nat {
    if width < 40 {
        0
    } else {
        (width - 40) as nat
    }
}

/// The columns that a bar fills.
pub open spec fn bar_fill(size: u64, columns: nat, max: u64) -> nat {
    (size * columns) as nat / (max as nat)
}

/// Whether a name can be cut: it is short enough, or its twenty-third byte
/// ends a character.
pub open spec fn cuttable(name: Seq<char>) -> bool {
    byte_len(name) > 24 ==> on_boundary(name, 23)
}

/// A name of at most twenty-four bytes, or the first twenty-three of a longer
/// one and an ellipsis.
pub open spec fn cut_name(name: Seq<char>) -> Seq<char> {
    if byte_len(name) > 24 {
        before(name, 23).push('…')
    } else {
        name
    }
}

/// What the bar of the hidden entries is called.
pub open spec fn hidden_label(size: u64, root_size: u64) -> Seq<char> {
    "Hidden Items  "@ + tenths_text(
        scaled(
            percent(
                size as nat,
                if root_size == 0 {
                    1
                } else {
                    root_size as nat
                },
            ),
            10,
        ),
    ) + "%"@
}

/// The name, the size and the bar itself.
pub open spec fn bar_spans(
    name: Seq<char>,
    style: Style,
    size: u64,
    opts: RenderOptions,
    max: u64,
) -> Seq<SpanView> {
    let columns = bar_columns(opts.width);
    let fill = bar_fill(size, columns, max);
    seq![
        sp(padded_end(cut_name(name), 24), style),
        sp(" "@, Style::plain()),
        sp(padded_start(human_text(size), 12), size_style(opts.theme, size)),
        sp(" "@, Style::plain()),
        sp(repeated('█', fill), size_style(opts.theme, size)),
        sp(repeated('░', (columns - fill) as nat), dim_style(opts.theme)),
    ]
}

/// The row of a bar. The one of the hidden entries has no name and no path.
pub open spec fn bar_row(item: BarItem, root: Node, opts: RenderOptions, max: u64) -> RowView {
    match item {
        BarItem::Real(n) => RowView {
            line: bar_spans(n.name@, name_style(n, opts.theme), n.size, opts, max)
                + modified_columns(n, opts),
            path: Some(n.path@),
            is_dir: n.is_dir,
            size: n.size,
            name: n.name@,
            is_hidden_summary: false,
        },
        BarItem::Hidden(size) => RowView {
            line: bar_spans(
                hidden_label(size, root.size),
                file_style(opts.theme),
                size,
                opts,
                max,
            ),
            path: None,
            is_dir: false,
            size,
            name: Seq::empty(),
            is_hidden_summary: true,
        },
    }
}

/// All rows: the root, and a bar for each entry of a directory.
pub open spec fn bar_rows(root: Node, opts: RenderOptions) -> Seq<RowView> {
    let items = bar_items(root, opts);
    seq![header_row(root, root.path@, opts.theme)] + (if root.is_dir {
        items.map_values(|item: BarItem| bar_row(item, root, opts, largest(items)))
    } else {
        Seq::empty()
    })
}

/// Whether the names of all listed entries can be cut.
pub open spec fn names_fit(root: Node, opts: RenderOptions) -> bool {
    root.is_dir ==> forall|i: int|
        0 <= i < listed_children(root, opts).len() ==> cuttable(
            (#[trigger] listed_children(root, opts)[i]).name@,
        )
}

spec fn item_fits(item: BarItem) -> bool {
    item matches BarItem::Real(n) ==> cuttable(n.name@)
}

/// Sizes never exceed the largest.
proof fn lemma_largest(items: Seq<BarItem>)
    ensures
        largest(items) >= 1,
        forall|i: int| 0 <= i < items.len() ==> item_size(#[trigger] items[i]) <= largest(items),
    decreases items.len(),
{
    if items.len() > 0 {
        lemma_largest(items.drop_last());
        assert forall|i: int| 0 <= i < items.len() implies item_size(#[trigger] items[i])
            <= largest(items) by {
            if i < items.len() - 1 {
                assert(items.drop_last()[i] == items[i]);
            }
        }
    }
}

/// No bar is longer than its columns; the bar of the largest entry fills them,
/// and of two bars the larger entry's is not the shorter.
pub proof fn bars_are_proportional(items: Seq<BarItem>, i: int, j: int, columns: nat)
    requires
        0 <= i < items.len(),
        0 <= j < items.len(),
        item_size(items[i]) <= item_size(items[j]),
    ensures
        bar_fill(item_size(items[i]), columns, largest(items)) <= bar_fill(
            item_size(items[j]),
            columns,
            largest(items),
        ) <= columns,
        item_size(items[j]) == largest(items) ==> bar_fill(
            item_size(items[j]),
            columns,
            largest(items),
        ) == columns,
{
    lemma_largest(items);
    let a = item_size(items[i]) as int;
    let b = item_size(items[j]) as int;
    let m = largest(items) as int;
    let c = columns as int;
    assert(b <= m);
    assert(a * c / m <= b * c / m <= c && (b == m ==> b * c / m == c)) by (nonlinear_arith)
        requires
            0 <= a <= b <= m,
            m >= 1,
            c >= 0,
    {
        assert(a * c <= b * c <= m * c);
        assert(m * c == c * m);
        vstd::arithmetic::div_mod::lemma_div_is_ordered(a * c, b * c, m);
        vstd::arithmetic::div_mod::lemma_div_is_ordered(b * c, m * c, m);
        vstd::arithmetic::div_mod::lemma_div_by_multiple(c, m);
    }
}

proof fn lemma_fill(size: u64, columns: nat, max: u64)
    requires
        size <= max,
        max >= 1,
        columns <= 65535,
    ensures
        bar_fill(size, columns, max) <= columns,
        size * columns <= 65535 * u64::MAX,
{
    assert(size * columns <= 65535 * u64::MAX) by (nonlinear_arith)
        requires
            size <= u64::MAX,
            columns <= 65535,
    ;
    assert((size * columns) as nat / (max as nat) <= columns) by (nonlinear_arith)
        requires
            size <= max,
            max >= 1,
    {
        assert(size * columns <= max * columns);
        assert(max * columns == columns * max);
        vstd::arithmetic::div_mod::lemma_div_is_ordered(size * columns, max * columns, max as int);
        vstd::arithmetic::div_mod::lemma_div_by_multiple(columns as int, max as int);
    }
}

/// Whether every character takes one byte.
spec fn single_bytes(s: Seq<char>) -> bool {
    forall|i: int| 0 <= i < s.len() ==> (#[trigger] s[i]) as u32 <= 0x7f
}

proof fn lemma_single_bytes(s: Seq<char>)
    requires
        single_bytes(s),
    ensures
        byte_len(s) == s.len(),
    decreases s.len(),
{
    if s.len() > 0 {
        assert forall|i: int| 0 <= i < s.skip(1).len() implies (#[trigger] s.skip(1)[i]) as u32
            <= 0x7f by {
            assert(s.skip(1)[i] == s[i + 1]);
        }
        lemma_single_bytes(s.skip(1));
    }
}

proof fn lemma_single_bytes_cuttable(s: Seq<char>)
    requires
        single_bytes(s),
    ensures
        cuttable(s),
{
    lemma_single_bytes(s);
    if s.len() > 24 {
        let t = s.take(23);
        assert forall|i: int| 0 <= i < t.len() implies (#[trigger] t[i]) as u32 <= 0x7f by {
            assert(t[i] == s[i]);
        }
        lemma_single_bytes(t);
        prefix_ends_on_boundary(s, 23);
    }
}

proof fn lemma_digits_single(n: nat)
    ensures
        single_bytes(number_text(n, 10)),
    decreases n,
{
    if n >= 10 {
        lemma_digits_single(n / 10);
    }
}

proof fn lemma_label_single(size: u64, root_size: u64)
    ensures
        single_bytes(hidden_label(size, root_size)),
{
    reveal_strlit("Hidden Items  ");
    reveal_strlit("%");
    let v = scaled(
        percent(
            size as nat,
            if root_size == 0 {
                1
            } else {
                root_size as nat
            },
        ),
        10,
    );
    lemma_digits_single(v / 10);
}

fn shorten(name: &str) -> (r: String)
    requires
        cuttable(name@),
    ensures
        r@ == cut_name(name@),
{
    if length(name) > 24 {
        let (k, _) = locate(name, 23);
        let mut s = take_chars(name, k);
        assert(s@ =~= before(name@, 23));
        push_char(&mut s, '…');
        s
    } else {
        name.to_owned()
    }
}

impl<'a> Entry<'a> {
    fn size(&self) -> (r: u64)
        ensures
            r == item_size(self@),
    {
        match self {
            Entry::Real(n) => n.size,
            Entry::Hidden { size } => *size,
        }
    }

    fn key(&self, sort: SortBy) -> (r: Key)
        ensures
            r@ == item_key(self@, sort),
    {
        match sort {
            SortBy::Size => Key::Size(self.size()),
            SortBy::Name => match self {
                Entry::Real(n) => Key::Name(chars_of(&lowercase(&n.name))),
                Entry::Hidden { .. } => Key::Name(chars_of("hidden items")),
            },
        }
    }
}

fn sort_entries(entries: &Vec<Entry<'_>>, sort: SortBy, order: SortOrder) -> (r: Vec<usize>)
    ensures
        positions(r@) == stable_order(
            item_keys(item_views(entries@), sort),
            order == SortOrder::Desc,
        ),
        r@.len() == entries@.len(),
        forall|i: int| 0 <= i < r@.len() ==> (#[trigger] r@[i]) < entries@.len(),
{
    let ghost all = item_keys(item_views(entries@), sort);
    let mut keys: Vec<Key> = Vec::new();
    let mut i: usize = 0;
    while i < entries.len()
        invariant
            i <= entries@.len(),
            all == item_keys(item_views(entries@), sort),
            key_views(keys@) == all.take(i as int),
        decreases entries@.len() - i,
    {
        let ghost before = key_views(keys@);
        let k = entries[i].key(sort);
        keys.push(k);
        assert(key_views(keys@) =~= before.push(k@));
        i = i + 1;
        assert(all.take(i as int) =~= all.take(i - 1).push(k@));
    }
    assert(all.take(i as int) =~= all);
    assert(keys@.len() == key_views(keys@).len());
    order_of(&keys, order == SortOrder::Desc)
}

fn gather<'a>(root: &'a Node, opts: &RenderOptions) -> (r: Vec<Entry<'a>>)
    ensures
        item_views(r@) == unsorted_items(*root, *opts),
{
    let nodes = visible_children(root, opts);
    let ghost listed = listed_children(*root, *opts);
    let ghost reals = listed.map_values(|n: Node| BarItem::Real(n));
    let mut entries: Vec<Entry<'a>> = Vec::new();
    let mut i: usize = 0;
    assert(nodes@.len() == nodes_of(nodes@).len());
    while i < nodes.len()
        invariant
            i <= nodes@.len(),
            nodes_of(nodes@) == listed,
            nodes@.len() == listed.len(),
            reals == listed.map_values(|n: Node| BarItem::Real(n)),
            item_views(entries@) == reals.take(i as int),
        decreases nodes@.len() - i,
    {
        let ghost before = item_views(entries@);
        let n = nodes[i];
        assert(*n == listed[i as int]);
        entries.push(Entry::Real(n));
        assert(item_views(entries@) =~= before.push(BarItem::Real(*n)));
        i = i + 1;
        assert(reals.take(i as int) =~= reals.take(i - 1).push(BarItem::Real(*n)));
    }
    assert(reals.take(i as int) =~= reals);
    let ghost before = item_views(entries@);
    if let Some((count, size)) = opts.hidden_summary {
        if count > 0 {
            entries.push(Entry::Hidden { size });
        }
    }
    assert(item_views(entries@) =~= unsorted_items(*root, *opts));
    entries
}

fn max_size(entries: &Vec<Entry<'_>>, order: &Vec<usize>) -> (r: u64)
    requires
        forall|i: int| 0 <= i < order@.len() ==> (#[trigger] order@[i]) < entries@.len(),
    ensures
        r == largest(picked(item_views(entries@), positions(order@))),
{
    let ghost items = picked(item_views(entries@), positions(order@));
    let mut m: u64 = 1;
    let mut i: usize = 0;
    assert(items.take(0) =~= Seq::<BarItem>::empty());
    while i < order.len()
        invariant
            i <= order@.len(),
            forall|k: int| 0 <= k < order@.len() ==> (#[trigger] order@[k]) < entries@.len(),
            items == picked(item_views(entries@), positions(order@)),
            m == largest(items.take(i as int)),
        decreases order@.len() - i,
    {
        assert(items.take(i + 1).drop_last() =~= items.take(i as int));
        let e = &entries[order[i]];
        assert(e@ == items[i as int]);
        let s = e.size();
        if s > m {
            m = s;
        }
        i = i + 1;
    }
    assert(items.take(i as int) =~= items);
    m
}

fn bar_line(name: &str, style: Style, size: u64, opts: &RenderOptions, max: u64) -> (r: Line)
    requires
        cuttable(name@),
        size <= max,
        max >= 1,
    ensures
        r@ == bar_spans(name@, style, size, *opts, max),
{
    let columns: usize = if opts.width < 40 {
        0
    } else {
        (opts.width - 40) as usize
    };
    proof {
        lemma_fill(size, columns as nat, max);
    }
    let fill: usize = ((size as u128 * columns as u128) / max as u128) as usize;
    let mut line = Line::new();
    line.push(pad_end(&shorten(name), 24), style);
    line.push_str(" ", Style::plain());
    line.push(pad_start(&human_size(size), 12), size_style(opts.theme, size));
    line.push_str(" ", Style::plain());
    line.push(repeat_char('█', fill), size_style(opts.theme, size));
    line.push(repeat_char('░', columns - fill), dim_style(opts.theme));
    assert(line@ =~= bar_spans(name@, style, size, *opts, max));
    line
}

fn render_bar(e: &Entry<'_>, root: &Node, opts: &RenderOptions, max: u64) -> (r: Row)
    requires
        item_fits(e@),
        item_size(e@) <= max,
        max >= 1,
    ensures
        r@ == bar_row(e@, *root, *opts, max),
{
    match e {
        Entry::Real(n) => {
            let mut line = bar_line(&n.name, style_of_name(n, opts.theme), n.size, opts, max);
            push_modified(&mut line, n, opts);
            Row::of_node(line, n)
        },
        Entry::Hidden { size } => {
            let whole: u64 = if root.size == 0 {
                1
            } else {
                root.size
            };
            let mut label = "Hidden Items  ".to_owned();
            label.append(&tenths(percent_scaled(*size, whole, 10)));
            label.append("%");
            assert(label@ =~= hidden_label(*size, root.size));
            proof {
                lemma_label_single(*size, root.size);
                lemma_single_bytes_cuttable(label@);
            }
            let line = bar_line(&label, file_style(opts.theme), *size, opts, max);
            let mut r = Row::plain(line);
            r.size = *size;
            r.is_hidden_summary = true;
            r
        },
    }
}

/// The entries of a directory as bars.
pub fn render(root: &Node, opts: &RenderOptions) -> (r: Vec<Row>)
    requires
        names_fit(*root, *opts),
    ensures
        row_views(r@) == bar_rows(*root, *opts),
{
    let mut rows: Vec<Row> = Vec::new();
    assert(row_views(rows@) =~= Seq::<RowView>::empty());
    push_row(&mut rows, header(root, &root.path, opts.theme));
    let ghost first = row_views(rows@);
    assert(first =~= seq![header_row(*root, root.path@, opts.theme)]);
    if !root.is_dir {
        assert(first =~= first + Seq::<RowView>::empty());
        return rows;
    }
    let entries = gather(root, opts);
    let order = sort_entries(&entries, opts.sort, opts.sort_order);
    let max = max_size(&entries, &order);
    let ghost items = bar_items(*root, *opts);
    let ghost unsorted = unsorted_items(*root, *opts);
    proof {
        lemma_largest(items);
        assert forall|k: int| 0 <= k < unsorted.len() implies item_fits(
            #[trigger] unsorted[k],
        ) by {
            if k < listed_children(*root, *opts).len() {
                assert(cuttable(listed_children(*root, *opts)[k].name@));
            }
        }
    }
    let ghost listing = items.map_values(|item: BarItem| bar_row(item, *root, *opts, max));
    let mut i: usize = 0;
    assert(first =~= first + listing.take(0));
    assert(entries@.len() == item_views(entries@).len());
    while i < order.len()
        invariant
            i <= order@.len(),
            forall|k: int| 0 <= k < order@.len() ==> (#[trigger] order@[k]) < entries@.len(),
            items == picked(item_views(entries@), positions(order@)),
            item_views(entries@) == unsorted,
            entries@.len() == unsorted.len(),
            forall|k: int| 0 <= k < unsorted.len() ==> item_fits(#[trigger] unsorted[k]),
            max == largest(items),
            max >= 1,
            forall|k: int| 0 <= k < items.len() ==> item_size(#[trigger] items[k]) <= max,
            listing == items.map_values(|item: BarItem| bar_row(item, *root, *opts, max)),
            row_views(rows@) == first + listing.take(i as int),
        decreases order@.len() - i,
    {
        let e = &entries[order[i]];
        assert(e@ == unsorted[order@[i as int] as int]);
        assert(e@ == items[i as int]);
        let row = render_bar(e, root, opts, max);
        push_row(&mut rows, row);
        i = i + 1;
        assert(listing.take(i as int) =~= listing.take(i - 1).push(row@));
        assert(row_views(rows@) =~= first + listing.take(i as int));
    }
    assert(listing.take(i as int) =~= listing);
    rows
}

/// Whether the names of all listed entries can be cut.
pub fn names_can_be_cut(root: &Node, opts: &RenderOptions) -> (r: bool)
    ensures
        r == names_fit(*root, *opts),
{
    if !root.is_dir {
        return true;
    }
    let nodes = visible_children(root, opts);
    let ghost listed = listed_children(*root, *opts);
    assert(nodes@.len() == nodes_of(nodes@).len());
    let mut i: usize = 0;
    while i < nodes.len()
        invariant
            i <= nodes@.len(),
            nodes_of(nodes@) == listed,
            nodes@.len() == listed.len(),
            listed == listed_children(*root, *opts),
            root.is_dir,
            forall|k: int| 0 <= k < i ==> cuttable((#[trigger] listed[k]).name@),
        decreases nodes@.len() - i,
    {
        let n = nodes[i];
        assert(*n == listed[i as int]);
        if length(&n.name) > 24 {
            let (_, whole) = locate(&n.name, 23);
            if !whole {
                assert(!cuttable(listed[i as int].name@));
                return false;
            }
        }
        i = i + 1;
    }
    true
}

} // verus!
