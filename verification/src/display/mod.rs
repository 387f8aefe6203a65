//! Rows of styled text for the scanned tree, and what they have in common.

use vstd::arithmetic::power2::{lemma2_to64, lemma2_to64_rest};
use vstd::prelude::*;

use crate::binary64::{
    binary_fractions_are_exact, half_even, hundredths, hundredths_text, nearest_of, percent,
    percent_scaled, quotient, scaled, Double,
};
use crate::cli::{Mode, SortBy, SortOrder};
use crate::config::Theme;
use crate::lists::{lemma_filter_all, lemma_filter_none, lemma_filter_step};
use crate::order::{key_views, order_of, picked, positions, stable_order, Key, KeyView};
use crate::stamp::{fmt_modified, modified_text};
use crate::style::{
    ansi_text, line_text, one, sp, style_to_ansi, Color, Line, Modifiers, Span, SpanView, Style,
};
use crate::text::{
    chars_of, decimal, decimal_text, lowercase, lowercase_text, number, starts_with,
    starts_with_char, text_opt,
};
use crate::walker::{total_size, unusual_bits, Node};

pub mod areas;
pub mod bars;
pub mod colors;
pub mod flat;
pub mod listings;
pub mod outline;
pub mod tree;
pub mod treemap;

verus! {

pub const KB: u64 = 1024;

pub const MB: u64 = 1_048_576;

pub const GB: u64 = 1_073_741_824;

pub const TB: u64 = 1_099_511_627_776;

/// A number of bytes in a unit, with two decimals.
pub open spec fn in_unit(bytes: nat, unit: nat, suffix: Seq<char>) -> Seq<char> {
    hundredths_text(scaled(quotient(nearest_of(bytes), nearest_of(unit)), 100)) + suffix
}

/// A number of bytes as people read it: in the largest unit that it reaches,
/// with two decimals, and bytes as they are.
pub open spec fn human_text(bytes: u64) -> Seq<char> {
    if bytes >= TB {
        in_unit(bytes as nat, TB as nat, " TB"@)
    } else if bytes >= GB {
        in_unit(bytes as nat, GB as nat, " GB"@)
    } else if bytes >= MB {
        in_unit(bytes as nat, MB as nat, " MB"@)
    } else if bytes >= KB {
        in_unit(bytes as nat, KB as nat, " KB"@)
    } else {
        decimal_text(bytes as nat) + " B"@
    }
}

/// A size below `2^53` bytes is shown rounded but once, to the nearest
/// hundredth of its unit.
pub proof fn sizes_are_rounded_once(bytes: u64)
    requires
        KB <= bytes < 0x20_0000_0000_0000,
    ensures
        human_text(bytes) == (if bytes >= TB {
            hundredths_text(half_even((bytes * 100) as nat, TB as nat)) + " TB"@
        } else if bytes >= GB {
            hundredths_text(half_even((bytes * 100) as nat, GB as nat)) + " GB"@
        } else if bytes >= MB {
            hundredths_text(half_even((bytes * 100) as nat, MB as nat)) + " MB"@
        } else {
            hundredths_text(half_even((bytes * 100) as nat, KB as nat)) + " KB"@
        }),
{
    lemma2_to64();
    lemma2_to64_rest();
    let a = bytes as nat;
    binary_fractions_are_exact(a, 10, 100);
    binary_fractions_are_exact(a, 20, 100);
    binary_fractions_are_exact(a, 30, 100);
    binary_fractions_are_exact(a, 40, 100);
}

fn with_unit(bytes: u64, unit: u64, suffix: &str) -> (r: String)
    requires
        unit > 0,
    ensures
        r@ == in_unit(bytes as nat, unit as nat, suffix@),
{
    let q = Double::of(bytes).div(Double::of(unit));
    let mut s = hundredths(q.scale(100));
    s.append(suffix);
    s
}

/// A number of bytes as people read it.
pub fn human_size(bytes: u64) -> (r: String)
    ensures
        r@ == human_text(bytes),
{
    if bytes >= TB {
        with_unit(bytes, TB, " TB")
    } else if bytes >= GB {
        with_unit(bytes, GB, " GB")
    } else if bytes >= MB {
        with_unit(bytes, MB, " MB")
    } else if bytes >= KB {
        with_unit(bytes, KB, " KB")
    } else {
        let mut s = decimal(bytes);
        s.append(" B");
        s
    }
}

/// The style of a size: small, middling and large sizes differ.
#[verifier::allow_in_spec]
pub fn size_style(theme: Theme, bytes: u64) -> Style
    returns
        (match theme {
            Theme::Default => if bytes < MB {
                Style::plain().fg(Color::Green)
            } else if bytes <= 104_857_600 {
                Style::plain().fg(Color::Yellow)
            } else {
                Style::plain().fg(Color::Red)
            },
            Theme::HighContrast => if bytes < MB {
                Style::plain().fg(Color::DarkGray)
            } else if bytes <= 104_857_600 {
                Style::plain().fg(Color::White)
            } else {
                Style::plain().fg(Color::LightRed).bold()
            },
            Theme::Monochrome => Style::plain(),
        }),
{
    match theme {
        Theme::Default => if bytes < MB {
            Style::plain().fg(Color::Green)
        } else if bytes <= 104_857_600 {
            Style::plain().fg(Color::Yellow)
        } else {
            Style::plain().fg(Color::Red)
        },
        Theme::HighContrast => if bytes < MB {
            Style::plain().fg(Color::DarkGray)
        } else if bytes <= 104_857_600 {
            Style::plain().fg(Color::White)
        } else {
            Style::plain().fg(Color::LightRed).bold()
        },
        Theme::Monochrome => Style::plain(),
    }
}

/// The style of a directory's name.
#[verifier::allow_in_spec]
pub fn dir_style(theme: Theme) -> Style
    returns
        (match theme {
            Theme::Default => Style::plain().fg(Color::Blue).bold(),
            Theme::HighContrast => Style::plain().fg(Color::White).bold(),
            Theme::Monochrome => Style::plain().bold(),
        }),
{
    match theme {
        Theme::Default => Style::plain().fg(Color::Blue).bold(),
        Theme::HighContrast => Style::plain().fg(Color::White).bold(),
        Theme::Monochrome => Style::plain().bold(),
    }
}

/// The style of a file's name.
#[verifier::allow_in_spec]
pub fn file_style(theme: Theme) -> Style
    returns
        (match theme {
            Theme::Default => Style::plain(),
            Theme::HighContrast => Style::plain().fg(Color::Gray),
            Theme::Monochrome => Style::plain(),
        }),
{
    match theme {
        Theme::Default => Style::plain(),
        Theme::HighContrast => Style::plain().fg(Color::Gray),
        Theme::Monochrome => Style::plain(),
    }
}

/// The style of what stands back.
#[verifier::allow_in_spec]
pub fn dim_style(theme: Theme) -> Style
    returns
        (match theme {
            Theme::Monochrome => Style::plain(),
            _ => Style::plain().dim(),
        }),
{
    match theme {
        Theme::Monochrome => Style::plain(),
        _ => Style::plain().dim(),
    }
}

/// How a tree is rendered.
#[derive(Clone, Copy)]
pub struct RenderOptions {
    pub theme: Theme,
    pub depth: usize,
    pub min_size: u64,
    pub sort: SortBy,
    pub sort_order: SortOrder,
    pub show_files: bool,
    pub show_modified: bool,
    pub width: u16,
    pub height: u16,
    /// The number and size of the hidden entries that one row stands for.
    /// Where it is there, entries whose names start with a dot are left out.
    pub hidden_summary: Option<(u64, u64)>,
}

/// The hidden entries directly below a node.
pub open spec fn hidden_children(n: Node) -> Seq<Node> {
    n.children@.filter(|c: Node| starts_with(c.name@, '.'))
}

/// What one row says of all hidden entries: how many they are, and how large
/// they are together, as far as a machine number goes.
pub open spec fn hidden_summary_of(n: Node, show_hidden: bool) -> Option<(u64, u64)> {
    let h = hidden_children(n);
    if show_hidden || h.len() == 0 {
        None
    } else {
        Some(
            (
                h.len() as u64,
                if total_size(h) <= u64::MAX {
                    total_size(h) as u64
                } else {
                    u64::MAX
                },
            ),
        )
    }
}

/// What one row says of all hidden entries below `node`. Nothing where they
/// are shown or where there are none.
pub fn compute_hidden_summary(node: &Node, show_hidden: bool) -> (r: Option<(u64, u64)>)
    ensures
        r == hidden_summary_of(*node, show_hidden),
{
    if show_hidden {
        return None;
    }
    let ghost pred = |c: Node| starts_with(c.name@, '.');
    let ghost all = node.children@;
    let mut count: u64 = 0;
    let mut size: u64 = 0;
    let mut i: usize = 0;
    proof {
        lemma_filter_none(all, pred);
    }
    while i < node.children.len()
        invariant
            i <= all.len(),
            all == node.children@,
            pred == (|c: Node| starts_with(c.name@, '.')),
            count <= i,
            count == all.take(i as int).filter(pred).len(),
            size == (if total_size(all.take(i as int).filter(pred)) <= u64::MAX {
                total_size(all.take(i as int).filter(pred)) as u64
            } else {
                u64::MAX
            }),
        decreases all.len() - i,
    {
        proof {
            lemma_filter_step(all, i as int, pred);
            let f = all.take(i as int).filter(pred);
            assert(f.push(all[i as int]).drop_last() =~= f);
        }
        let c = &node.children[i];
        if starts_with_char(&c.name, '.') {
            count = count + 1;
            size = size.saturating_add(c.size);
        }
        i = i + 1;
    }
    proof {
        lemma_filter_all(all, pred);
    }
    if count == 0 {
        None
    } else {
        Some((count, size))
    }
}

/// A row of output and what it stands for.
pub struct Row {
    pub line: Line,
    /// The entry that the row stands for, if any.
    pub path: Option<String>,
    pub is_dir: bool,
    pub size: u64,
    pub name: String,
    /// Whether the row stands for all hidden entries. It cannot be selected.
    pub is_hidden_summary: bool,
}

/// The mathematical form of a [`Row`].
#[verifier::ext_equal]
pub struct RowView {
    pub line: Seq<SpanView>,
    pub path: Option<Seq<char>>,
    pub is_dir: bool,
    pub size: u64,
    pub name: Seq<char>,
    pub is_hidden_summary: bool,
}

impl View for Row {
    type V = RowView;

    open spec fn view(&self) -> RowView {
        RowView {
            line: self.line@,
            path: text_opt(self.path),
            is_dir: self.is_dir,
            size: self.size,
            name: self.name@,
            is_hidden_summary: self.is_hidden_summary,
        }
    }
}

/// The rows of a list.
pub open spec fn row_views(v: Seq<Row>) -> Seq<RowView> {
    v.map_values(|r: Row| r@)
}

/// A line that stands for nothing.
pub open spec fn plain_row(line: Seq<SpanView>) -> RowView {
    RowView {
        line,
        path: None,
        is_dir: false,
        size: 0,
        name: Seq::empty(),
        is_hidden_summary: false,
    }
}

/// A line that stands for a node.
pub open spec fn node_row(line: Seq<SpanView>, n: Node) -> RowView {
    RowView {
        line,
        path: Some(n.path@),
        is_dir: n.is_dir,
        size: n.size,
        name: n.name@,
        is_hidden_summary: false,
    }
}

impl Row {
    /// A line that stands for nothing.
    pub fn plain(line: Line) -> (r: Row)
        ensures
            r@ == plain_row(line@),
    {
        Row {
            line,
            path: None,
            is_dir: false,
            size: 0,
            name: String::new(),
            is_hidden_summary: false,
        }
    }

    /// A line that stands for `n`.
    pub fn of_node(line: Line, n: &Node) -> (r: Row)
        ensures
            r@ == node_row(line@, *n),
    {
        Row {
            line,
            path: Some(n.path.clone()),
            is_dir: n.is_dir,
            size: n.size,
            name: n.name.clone(),
            is_hidden_summary: false,
        }
    }
}

/// Appends a row.
pub(crate) fn push_row(rows: &mut Vec<Row>, row: Row)
    ensures
        row_views(final(rows)@) == row_views(old(rows)@).push(row@),
{
    rows.push(row);
    assert(row_views(rows@) =~= row_views(old(rows)@).push(row@));
}

/// A percentage without decimals; none of nothing.
pub open spec fn whole_percent_text(part: u64, whole: u64) -> Seq<char> {
    if whole > 0 {
        decimal_text(scaled(percent(part as nat, whole as nat), 1))
    } else {
        "0"@
    }
}

/// What the row for the hidden entries says.
pub open spec fn hidden_summary_text(count: u64, size: u64, parent_size: u64) -> Seq<char> {
    "··· "@ + decimal_text(count as nat) + " hidden "@ + (if count == 1 {
        "item"@
    } else {
        "items"@
    }) + "  ("@ + human_text(size) + "  |  "@ + whole_percent_text(size, parent_size) + "%)"@
}

/// The style of the row for the hidden entries.
#[verifier::allow_in_spec]
pub fn hidden_summary_style() -> Style
    returns
        Style::plain().add_modifier(Modifiers::just_dim().with(Modifiers::just_italic())),
{
    Style::plain().add_modifier(Modifiers::just_dim().with(Modifiers::just_italic()))
}

/// The row for the hidden entries.
pub open spec fn hidden_row(count: u64, size: u64, parent_size: u64) -> RowView {
    RowView {
        is_hidden_summary: true,
        ..plain_row(one(hidden_summary_text(count, size, parent_size), hidden_summary_style()))
    }
}

/// A percentage without decimals.
pub fn whole_percent(part: u64, whole: u64) -> (r: String)
    ensures
        r@ == whole_percent_text(part, whole),
{
    if whole > 0 {
        number(percent_scaled(part, whole, 1), 10)
    } else {
        "0".to_owned()
    }
}

/// The row for the hidden entries: dim and not selectable.
pub fn hidden_summary_row(count: u64, size: u64, parent_size: u64) -> (r: Row)
    ensures
        r@ == hidden_row(count, size, parent_size),
{
    let mut text = "··· ".to_owned();
    text.append(&decimal(count));
    text.append(" hidden ");
    if count == 1 {
        text.append("item");
    } else {
        text.append("items");
    }
    text.append("  (");
    text.append(&human_size(size));
    text.append("  |  ");
    text.append(&whole_percent(size, parent_size));
    text.append("%)");
    let mut row = Row::plain(Line::of(&text, hidden_summary_style()));
    row.is_hidden_summary = true;
    row
}

/// The rows that a summary of hidden entries adds.
pub open spec fn summary_rows(opts: RenderOptions, parent_size: u64) -> Seq<RowView> {
    match opts.hidden_summary {
        Some((count, size)) => if count > 0 {
            seq![hidden_row(count, size, parent_size)]
        } else {
            Seq::empty()
        },
        None => Seq::empty(),
    }
}

/// Appends the rows that a summary of hidden entries adds.
pub(crate) fn push_summary(rows: &mut Vec<Row>, opts: &RenderOptions, parent_size: u64)
    ensures
        row_views(final(rows)@) == row_views(old(rows)@) + summary_rows(*opts, parent_size),
{
    let ghost before = row_views(rows@);
    if let Some((count, size)) = opts.hidden_summary {
        if count > 0 {
            push_row(rows, hidden_summary_row(count, size, parent_size));
            assert(row_views(rows@) =~= before + summary_rows(*opts, parent_size));
            return;
        }
    }
    assert(row_views(rows@) =~= before + summary_rows(*opts, parent_size));
}

/// What a node is sorted by.
pub open spec fn node_key(n: Node, sort: SortBy) -> KeyView {
    match sort {
        SortBy::Size => KeyView::Size(n.size as nat),
        SortBy::Name => KeyView::Name(lowercase_text(n.name@)),
    }
}

/// What the nodes of a list are sorted by.
pub open spec fn node_keys(s: Seq<Node>, sort: SortBy) -> Seq<KeyView> {
    s.map_values(|n: Node| node_key(n, sort))
}

/// Nodes in the order asked for, equal ones as they were.
pub open spec fn sorted_nodes(s: Seq<Node>, sort: SortBy, order: SortOrder) -> Seq<Node> {
    picked(s, stable_order(node_keys(s, sort), order == SortOrder::Desc))
}

/// The nodes that a list refers to.
pub open spec fn nodes_of(v: Seq<&Node>) -> Seq<Node> {
    v.map_values(|n: &Node| *n)
}

fn key_of(n: &Node, sort: SortBy) -> (r: Key)
    ensures
        r@ == node_key(*n, sort),
{
    match sort {
        SortBy::Size => Key::Size(n.size),
        SortBy::Name => Key::Name(chars_of(&lowercase(&n.name))),
    }
}

/// Sorts `nodes`, keeping equal ones in their order.
pub fn sort_nodes<'a>(nodes: &mut Vec<&'a Node>, sort: SortBy, order: SortOrder)
    ensures
        nodes_of(final(nodes)@) == sorted_nodes(nodes_of(old(nodes)@), sort, order),
{
    let ghost all = nodes_of(nodes@);
    let mut keys: Vec<Key> = Vec::new();
    let mut i: usize = 0;
    while i < nodes.len()
        invariant
            i <= nodes@.len(),
            all == nodes_of(nodes@),
            key_views(keys@) == node_keys(all, sort).take(i as int),
        decreases nodes@.len() - i,
    {
        let ghost before = key_views(keys@);
        let k = key_of(nodes[i], sort);
        keys.push(k);
        assert(key_views(keys@) =~= before.push(k@));
        i = i + 1;
        assert(node_keys(all, sort).take(i as int) =~= node_keys(all, sort).take(i - 1).push(k@));
    }
    assert(node_keys(all, sort).take(i as int) =~= node_keys(all, sort));
    assert(keys@.len() == key_views(keys@).len());
    let order_v = order_of(&keys, order == SortOrder::Desc);
    let mut out: Vec<&'a Node> = Vec::new();
    let mut j: usize = 0;
    while j < order_v.len()
        invariant
            j <= order_v@.len(),
            all == nodes_of(nodes@),
            order_v@.len() == nodes@.len(),
            forall|k: int| 0 <= k < order_v@.len() ==> (#[trigger] order_v@[k]) < nodes@.len(),
            nodes_of(out@) == picked(all, positions(order_v@)).take(j as int),
        decreases order_v@.len() - j,
    {
        let ghost before = nodes_of(out@);
        let n = nodes[order_v[j]];
        assert(*n == picked(all, positions(order_v@))[j as int]);
        out.push(n);
        assert(nodes_of(out@) =~= before.push(*n));
        j = j + 1;
        assert(picked(all, positions(order_v@)).take(j as int) =~= picked(
            all,
            positions(order_v@),
        ).take(j - 1).push(*n));
    }
    assert(picked(all, positions(order_v@)).take(j as int) =~= picked(all, positions(order_v@)));
    *nodes = out;
}

/// Whether a child is listed: large enough, a directory unless files are
/// shown, and not hidden where hidden entries are left out.
pub open spec fn listed(c: Node, opts: RenderOptions) -> bool {
    &&& c.size >= opts.min_size
    &&& opts.show_files || c.is_dir
    &&& opts.hidden_summary is None || !starts_with(c.name@, '.')
}

/// The children of a node that are listed.
pub open spec fn listed_children(n: Node, opts: RenderOptions) -> Seq<Node> {
    n.children@.filter(|c: Node| listed(c, opts))
}

/// The children of a node that are listed.
pub(crate) fn visible_children<'a>(node: &'a Node, opts: &RenderOptions) -> (r: Vec<&'a Node>)
    ensures
        nodes_of(r@) == listed_children(*node, *opts),
{
    let ghost pred = |c: Node| listed(c, *opts);
    let ghost all = node.children@;
    let mut out: Vec<&'a Node> = Vec::new();
    let mut i: usize = 0;
    proof {
        lemma_filter_none(all, pred);
        assert(nodes_of(out@) =~= Seq::<Node>::empty());
    }
    while i < node.children.len()
        invariant
            i <= all.len(),
            all == node.children@,
            pred == (|c: Node| listed(c, *opts)),
            nodes_of(out@) == all.take(i as int).filter(pred),
        decreases all.len() - i,
    {
        proof {
            lemma_filter_step(all, i as int, pred);
        }
        let ghost before = nodes_of(out@);
        let c = &node.children[i];
        if c.size >= opts.min_size && (opts.show_files || c.is_dir) && (
        opts.hidden_summary.is_none() || !starts_with_char(&c.name, '.')) {
            out.push(c);
            assert(nodes_of(out@) =~= before.push(*c));
        }
        i = i + 1;
    }
    proof {
        lemma_filter_all(all, pred);
    }
    out
}

/// A line as it is printed: with escape sequences, or plain.
pub open spec fn printed(line: Seq<SpanView>, use_color: bool) -> Seq<char>
    decreases line.len(),
{
    if line.len() == 0 {
        Seq::empty()
    } else {
        let s = line.last();
        printed(line.drop_last(), use_color) + (if use_color {
            ansi_text(s.style) + s.content + "\x1b[0m"@
        } else {
            s.content
        })
    }
}

/// Without colors, a line is printed as its text.
pub proof fn plain_print_is_text(line: Seq<SpanView>)
    ensures
        printed(line, false) == line_text(line),
    decreases line.len(),
{
    if line.len() > 0 {
        plain_print_is_text(line.drop_last());
    }
}

fn print_line(line: &Line, use_color: bool) -> (r: String)
    ensures
        r@ == printed(line@, use_color),
{
    let mut buf = String::new();
    let mut i: usize = 0;
    assert(line@.take(0) =~= Seq::<SpanView>::empty());
    while i < line.spans.len()
        invariant
            i <= line.spans@.len(),
            buf@ == printed(line@.take(i as int), use_color),
        decreases line.spans@.len() - i,
    {
        let s = &line.spans[i];
        let ghost before = buf@;
        if use_color {
            buf.append(&style_to_ansi(s.style));
            buf.append(&s.content);
            buf.append("\x1b[0m");
        } else {
            buf.append(&s.content);
        }
        i = i + 1;
        assert(line@.take(i as int).drop_last() =~= line@.take(i - 1));
        assert(line@.take(i as int).last() == s@);
        assert(buf@ =~= printed(line@.take(i as int), use_color));
    }
    assert(line@.take(i as int) =~= line@);
    buf
}

/// The rows as they are printed, one text for each.
pub fn print_rows(rows: &Vec<Row>, use_color: bool) -> (r: Vec<String>)
    ensures
        r@.len() == rows@.len(),
        forall|i: int|
            0 <= i < r@.len() ==> (#[trigger] r@[i])@ == printed(rows@[i].line@, use_color),
{
    let mut out: Vec<String> = Vec::new();
    let mut i: usize = 0;
    while i < rows.len()
        invariant
            i <= rows@.len(),
            out@.len() == i,
            forall|j: int|
                0 <= j < i ==> (#[trigger] out@[j])@ == printed(rows@[j].line@, use_color),
        decreases rows@.len() - i,
    {
        out.push(print_line(&rows[i].line, use_color));
        i = i + 1;
    }
    out
}

/// The style of a node's name: entries with unusual permissions stand out.
pub open spec fn name_style(n: Node, theme: Theme) -> Style {
    if n.mode is Some && unusual_bits(n.mode->0) {
        Style::plain().fg(Color::Rgb(255, 140, 0)).bold()
    } else if n.is_dir {
        dir_style(theme)
    } else {
        file_style(theme)
    }
}

/// The style of a node's name.
pub fn style_of_name(node: &Node, theme: Theme) -> (r: Style)
    ensures
        r == name_style(*node, theme),
{
    if node.has_unusual_perms() {
        Style::plain().fg(Color::Rgb(255, 140, 0)).bold()
    } else if node.is_dir {
        dir_style(theme)
    } else {
        file_style(theme)
    }
}

/// A node's name, styled.
pub fn name_span(node: &Node, theme: Theme) -> (r: Span)
    ensures
        r@ == sp(node.name@, name_style(*node, theme)),
{
    Span { content: node.name.clone(), style: style_of_name(node, theme) }
}

/// A node's size, styled.
pub fn size_span(node: &Node, theme: Theme) -> (r: Span)
    ensures
        r@ == sp(human_text(node.size), size_style(theme, node.size)),
{
    Span { content: human_size(node.size), style: size_style(theme, node.size) }
}

/// A node's modification time, styled.
pub fn modified_span(node: &Node, theme: Theme) -> (r: Span)
    ensures
        r@ == sp(modified_text(node.modified), dim_style(theme)),
{
    Span { content: fmt_modified(node.modified), style: dim_style(theme) }
}

/// The first row: where the tree is rooted, and its size.
pub open spec fn header_row(n: Node, title: Seq<char>, theme: Theme) -> RowView {
    node_row(
        seq![
            sp(title, Style::plain().bold()),
            sp("  "@, Style::plain()),
            sp(human_text(n.size), size_style(theme, n.size)),
        ],
        n,
    )
}

/// The first row.
pub(crate) fn header(n: &Node, title: &str, theme: Theme) -> (r: Row)
    ensures
        r@ == header_row(*n, title@, theme),
{
    let mut line = Line::new();
    line.push_str(title, Style::plain().bold());
    line.push_str("  ", Style::plain());
    line.push_span(size_span(n, theme));
    let r = Row::of_node(line, n);
    assert(r@.line =~= header_row(*n, title@, theme).line);
    r
}

/// The columns that a modification date adds.
pub open spec fn modified_columns(n: Node, opts: RenderOptions) -> Seq<SpanView> {
    if opts.show_modified {
        seq![sp("  "@, Style::plain()), sp(modified_text(n.modified), dim_style(opts.theme))]
    } else {
        Seq::empty()
    }
}

/// Appends the columns that a modification date adds.
pub(crate) fn push_modified(line: &mut Line, n: &Node, opts: &RenderOptions)
    ensures
        final(line)@ == old(line)@ + modified_columns(*n, *opts),
{
    let ghost before = line@;
    if opts.show_modified {
        line.push_str("  ", Style::plain());
        line.push_span(modified_span(n, opts.theme));
    }
    assert(line@ =~= before + modified_columns(*n, *opts));
}

/// What a rendering mode needs of a tree.
pub open spec fn renderable(root: Node, opts: RenderOptions, mode: Mode) -> bool {
    match mode {
        Mode::Bars => bars::names_fit(root, opts),
        Mode::Treemap => treemap::addable(root) && root.path@.len() % 65536 < 65534,
        _ => true,
    }
}

/// The rows of a tree in a rendering mode.
pub open spec fn rows_in_mode(root: Node, opts: RenderOptions, mode: Mode) -> Seq<RowView> {
    match mode {
        Mode::Tree => tree::tree_rows(root, opts),
        Mode::Bars => bars::bar_rows(root, opts),
        Mode::Treemap => treemap::treemap_rows(root, opts),
        Mode::Flat => flat::flat_rows(root, opts),
    }
}

/// Whether a tree can be rendered in a mode.
pub fn can_render(root: &Node, opts: &RenderOptions, mode: Mode) -> (r: bool)
    ensures
        r == renderable(*root, *opts, mode),
{
    match mode {
        Mode::Bars => bars::names_can_be_cut(root, opts),
        Mode::Treemap => treemap::can_add_up(root) && root.path.as_str().unicode_len() % 65536
            < 65534,
        _ => true,
    }
}

/// The rows of a tree in a rendering mode.
pub fn render_rows(root: &Node, opts: &RenderOptions, mode: Mode) -> (r: Vec<Row>)
    requires
        renderable(*root, *opts, mode),
    ensures
        row_views(r@) == rows_in_mode(*root, *opts, mode),
{
    match mode {
        Mode::Tree => tree::render(root, opts),
        Mode::Bars => bars::render(root, opts),
        Mode::Treemap => treemap::render(root, opts),
        Mode::Flat => flat::render(root, opts),
    }
}

} // verus!
