//! The tree as nested rectangles whose areas follow the sizes.
//!
//! The entries of a directory, largest first, are split in two groups of about
//! equal size. The area is split in the same proportion along its longer side,
//! and each group is laid out in its part. An entry that is alone in its part
//! fills it, and a directory is laid out again inside.

use vstd::prelude::*;

use ratatui::buffer::Buffer;

use crate::binary64::{share_cells, share_of_cells};
use crate::cli::{SortBy, SortOrder};
use crate::display::{
    human_size, human_text, node_keys, nodes_of, plain_row, push_row, row_views, sort_nodes,
    sorted_nodes, RenderOptions, Row, RowView, MB,
};
use crate::layout::{minus16, plus16, Rect};
use crate::lists::{
    lemma_filter_all, lemma_filter_none, lemma_filter_passes, lemma_filter_step,
};
use crate::order::{order_upto, picked, stable_order, stable_order_sorts, with_inserted, KeyView};
use crate::style::{fg_or, sp, Color, Line, Modifiers, SpanView, Style};
use crate::text::{chars_of, push_char, same_text, take_chars};
use crate::walker::{all_add_up, sizes_add_up, total_size, Node};

verus! {

/// The smallest width and height of a block.
pub const MIN_W: u16 = 3;

pub const MIN_H: u16 = 2;

/// The smallest width and height of a block with a border.
pub const TEXT_W: u16 = 6;

pub const TEXT_H: u16 = 3;

// ---------------------------------------------------------------------------
// The screen buffer
// ---------------------------------------------------------------------------

#[verifier::external_type_specification]
#[verifier::external_body]
pub struct ExBuffer(ratatui::buffer::Buffer);

/// What a cell of the screen holds: a symbol, the names of its colors, and the
/// bits of its attributes.
#[verifier::ext_equal]
pub struct CellView {
    pub symbol: Seq<char>,
    pub fg: Seq<char>,
    pub bg: Seq<char>,
    pub bits: u16,
}

/// The cells of a buffer, by column and row.
pub uninterp spec fn buffer_cells(b: Buffer) -> Map<(int, int), CellView>;

/// A cell of the screen.
pub struct ScreenCell {
    pub symbol: String,
    pub fg: String,
    pub bg: String,
    pub bits: u16,
}

impl View for ScreenCell {
    type V = CellView;

    open spec fn view(&self) -> CellView {
        CellView { symbol: self.symbol@, fg: self.fg@, bg: self.bg@, bits: self.bits }
    }
}

/// An empty cell.
pub open spec fn blank_cell() -> CellView {
    CellView { symbol: " "@, fg: "Reset"@, bg: "Reset"@, bits: 0 }
}

/// The cells of an empty area in the upper left corner.
pub open spec fn blank_cells(width: u16, height: u16) -> Map<(int, int), CellView> {
    Map::new(|p: (int, int)| 0 <= p.0 < width && 0 <= p.1 < height, |p: (int, int)| blank_cell())
}

/// The name of a color. A color that is given by its parts has none.
pub open spec fn color_name(c: Color) -> Seq<char> {
    match c {
        Color::Reset => "Reset"@,
        Color::Black => "Black"@,
        Color::Red => "Red"@,
        Color::Green => "Green"@,
        Color::Yellow => "Yellow"@,
        Color::Blue => "Blue"@,
        Color::Magenta => "Magenta"@,
        Color::Cyan => "Cyan"@,
        Color::Gray => "Gray"@,
        Color::DarkGray => "DarkGray"@,
        Color::LightRed => "LightRed"@,
        Color::LightGreen => "LightGreen"@,
        Color::LightYellow => "LightYellow"@,
        Color::LightBlue => "LightBlue"@,
        Color::LightMagenta => "LightMagenta"@,
        Color::LightCyan => "LightCyan"@,
        Color::White => "White"@,
        Color::Rgb(_, _, _) => Seq::empty(),
    }
}

/// Whether a text is the name of a color.
pub open spec fn is_color_name(s: Seq<char>) -> bool {
    exists|c: Color| c !is Rgb && #[trigger] color_name(c) == s
}

/// A cell after a symbol was written to it: a color only where one was named,
/// attributes switched on and off.
pub open spec fn overwritten(
    c: CellView,
    symbol: char,
    fg: Option<Seq<char>>,
    add: u16,
    sub: u16,
) -> CellView {
    CellView {
        symbol: seq![symbol],
        fg: match fg {
            Some(name) => name,
            None => c.fg,
        },
        bg: c.bg,
        bits: (c.bits | add) & !sub,
    }
}

/// The cells of a buffer after a symbol was written to one of them.
pub open spec fn with_cell(
    cells: Map<(int, int), CellView>,
    at: (int, int),
    symbol: char,
    fg: Option<Seq<char>>,
    add: u16,
    sub: u16,
) -> Map<(int, int), CellView> {
    if cells.contains_key(at) {
        cells.insert(at, overwritten(cells[at], symbol, fg, add, sub))
    } else {
        cells
    }
}

/// The view of an optional text.
pub open spec fn str_opt(s: Option<&str>) -> Option<Seq<char>> {
    match s {
        Some(t) => Some(t@),
        None => None,
    }
}

/// `Buffer::empty` of ratatui, for an area at the origin: every cell of the
/// area is there, holds a blank, both its colors are `Reset` and none of its
/// attributes is on.
#[verifier::external_body]
fn empty_buffer(width: u16, height: u16) -> (r: Buffer)
    ensures
        buffer_cells(r) == blank_cells(width, height),
{
    Buffer::empty(ratatui::layout::Rect { x: 0, y: 0, width, height })
}

/// `Cell::set_symbol` and `Cell::set_style` of ratatui, on the cell that
/// `Buffer::cell_mut` finds. Nothing happens where there is no such cell. The
/// foreground changes only where the style has one; attributes that the style
/// adds are switched on, then those that it removes are switched off. A color
/// is the one that `Color::from_str` reads from its name.
#[verifier::external_body]
fn put_cell(buf: &mut Buffer, x: u16, y: u16, symbol: char, fg: Option<&str>, add: u16, sub: u16)
    requires
        fg is Some ==> is_color_name(fg->0@),
    ensures
        buffer_cells(*final(buf)) == with_cell(
            buffer_cells(*old(buf)),
            (x as int, y as int),
            symbol,
            str_opt(fg),
            add,
            sub,
        ),
{
    let mut style = ratatui::style::Style::default();
    style.fg = fg.and_then(|name| name.parse::<ratatui::style::Color>().ok());
    style.add_modifier = ratatui::style::Modifier::from_bits_retain(add);
    style.sub_modifier = ratatui::style::Modifier::from_bits_retain(sub);
    if let Some(cell) = buf.cell_mut((x, y)) {
        cell.set_symbol(&symbol.to_string());
        cell.set_style(style);
    }
}

/// `Buffer::cell` of ratatui: the cell at a column and a row, with the names
/// that `Display` gives to its colors. None outside the buffer.
#[verifier::external_body]
fn cell_at(buf: &Buffer, x: u16, y: u16) -> (r: Option<ScreenCell>)
    ensures
        r is Some <==> buffer_cells(*buf).contains_key((x as int, y as int)),
        r is Some ==> r->0@ == buffer_cells(*buf)[(x as int, y as int)],
{
    buf.cell((x, y)).map(|c| ScreenCell {
        symbol: c.symbol().to_string(),
        fg: c.fg.to_string(),
        bg: c.bg.to_string(),
        bits: c.modifier.bits(),
    })
}

/// The bits of a set of attributes.
pub open spec fn modifier_bits(m: Modifiers) -> u16 {
    ((if m.bold {
        1int
    } else {
        0
    }) + (if m.dim {
        2int
    } else {
        0
    }) + (if m.italic {
        4int
    } else {
        0
    }) + (if m.underlined {
        8int
    } else {
        0
    })) as u16
}

/// The set of attributes that bits stand for.
pub open spec fn modifiers_of(bits: u16) -> Modifiers {
    Modifiers {
        bold: bits & 1 != 0,
        dim: bits & 2 != 0,
        italic: bits & 4 != 0,
        underlined: bits & 8 != 0,
    }
}

/// Bits stand for the attributes that they were made of.
pub proof fn modifier_bits_round_trip(m: Modifiers)
    ensures
        modifiers_of(modifier_bits(m)) == m,
{
    assert(forall|b: u16|
        b < 16 ==> ((#[trigger] (b & 1) != 0) == (b % 2 == 1)) && ((b & 2 != 0) == (b / 2 % 2
            == 1)) && ((b & 4 != 0) == (b / 4 % 2 == 1)) && ((b & 8 != 0) == (b / 8 % 2 == 1)))
        by (bit_vector);
    let b = modifier_bits(m);
    assert(b & 1 != 0 == m.bold);
}

fn bits_of(m: Modifiers) -> (r: u16)
    ensures
        r == modifier_bits(m),
{
    let a: u16 = if m.bold {
        1
    } else {
        0
    };
    let b: u16 = if m.dim {
        2
    } else {
        0
    };
    let c: u16 = if m.italic {
        4
    } else {
        0
    };
    let d: u16 = if m.underlined {
        8
    } else {
        0
    };
    a + b + c + d
}

fn name_of_color(c: Color) -> (r: &'static str)
    requires
        c !is Rgb,
    ensures
        r@ == color_name(c),
{
    match c {
        Color::Reset => "Reset",
        Color::Black => "Black",
        Color::Red => "Red",
        Color::Green => "Green",
        Color::Yellow => "Yellow",
        Color::Blue => "Blue",
        Color::Magenta => "Magenta",
        Color::Cyan => "Cyan",
        Color::Gray => "Gray",
        Color::DarkGray => "DarkGray",
        Color::LightRed => "LightRed",
        Color::LightGreen => "LightGreen",
        Color::LightYellow => "LightYellow",
        Color::LightBlue => "LightBlue",
        Color::LightMagenta => "LightMagenta",
        Color::LightCyan => "LightCyan",
        _ => "White",
    }
}

/// The color of a name.
pub open spec fn color_of_name(s: Seq<char>) -> Option<Color> {
    if s == "Reset"@ {
        Some(Color::Reset)
    } else if s == "Black"@ {
        Some(Color::Black)
    } else if s == "Red"@ {
        Some(Color::Red)
    } else if s == "Green"@ {
        Some(Color::Green)
    } else if s == "Yellow"@ {
        Some(Color::Yellow)
    } else if s == "Blue"@ {
        Some(Color::Blue)
    } else if s == "Magenta"@ {
        Some(Color::Magenta)
    } else if s == "Cyan"@ {
        Some(Color::Cyan)
    } else if s == "Gray"@ {
        Some(Color::Gray)
    } else if s == "DarkGray"@ {
        Some(Color::DarkGray)
    } else if s == "LightRed"@ {
        Some(Color::LightRed)
    } else if s == "LightGreen"@ {
        Some(Color::LightGreen)
    } else if s == "LightYellow"@ {
        Some(Color::LightYellow)
    } else if s == "LightBlue"@ {
        Some(Color::LightBlue)
    } else if s == "LightMagenta"@ {
        Some(Color::LightMagenta)
    } else if s == "LightCyan"@ {
        Some(Color::LightCyan)
    } else if s == "White"@ {
        Some(Color::White)
    } else {
        None
    }
}

fn color_named(s: &str) -> (r: Option<Color>)
    ensures
        r == color_of_name(s@),
{
    if same_text(s, "Reset") {
        Some(Color::Reset)
    } else if same_text(s, "Black") {
        Some(Color::Black)
    } else if same_text(s, "Red") {
        Some(Color::Red)
    } else if same_text(s, "Green") {
        Some(Color::Green)
    } else if same_text(s, "Yellow") {
        Some(Color::Yellow)
    } else if same_text(s, "Blue") {
        Some(Color::Blue)
    } else if same_text(s, "Magenta") {
        Some(Color::Magenta)
    } else if same_text(s, "Cyan") {
        Some(Color::Cyan)
    } else if same_text(s, "Gray") {
        Some(Color::Gray)
    } else if same_text(s, "DarkGray") {
        Some(Color::DarkGray)
    } else if same_text(s, "LightRed") {
        Some(Color::LightRed)
    } else if same_text(s, "LightGreen") {
        Some(Color::LightGreen)
    } else if same_text(s, "LightYellow") {
        Some(Color::LightYellow)
    } else if same_text(s, "LightBlue") {
        Some(Color::LightBlue)
    } else if same_text(s, "LightMagenta") {
        Some(Color::LightMagenta)
    } else if same_text(s, "LightCyan") {
        Some(Color::LightCyan)
    } else if same_text(s, "White") {
        Some(Color::White)
    } else {
        None
    }
}

/// Whether a style can be written to a cell by color names: its foreground has
/// a name, and it leaves the background alone.
pub open spec fn nameable(style: Style) -> bool {
    style.bg is None && (style.fg is Some ==> style.fg->0 !is Rgb)
}

/// A cell after a styled symbol was written to it.
pub open spec fn patched(c: CellView, symbol: char, style: Style) -> CellView {
    overwritten(
        c,
        symbol,
        match style.fg {
            Some(color) => Some(color_name(color)),
            None => None,
        },
        modifier_bits(style.add_modifier),
        modifier_bits(style.sub_modifier),
    )
}

/// The cells after a styled symbol was written to one of them.
pub open spec fn with_patch(
    cells: Map<(int, int), CellView>,
    at: (int, int),
    symbol: char,
    style: Style,
) -> Map<(int, int), CellView> {
    if cells.contains_key(at) {
        cells.insert(at, patched(cells[at], symbol, style))
    } else {
        cells
    }
}

fn set_cell(buf: &mut Buffer, x: u16, y: u16, symbol: char, style: Style)
    requires
        nameable(style),
    ensures
        buffer_cells(*final(buf)) == with_patch(
            buffer_cells(*old(buf)),
            (x as int, y as int),
            symbol,
            style,
        ),
{
    let add = bits_of(style.add_modifier);
    let sub = bits_of(style.sub_modifier);
    match style.fg {
        Some(c) => {
            let name = name_of_color(c);
            put_cell(buf, x, y, symbol, Some(name), add, sub);
        },
        None => {
            put_cell(buf, x, y, symbol, None, add, sub);
        },
    }
}

/// What writing `text` from `(x, y)` on, up to but not at column `end`, makes
/// of the cell at `(px, py)`.
pub open spec fn lettered(
    c: CellView,
    px: int,
    py: int,
    text: Seq<char>,
    x: int,
    y: int,
    end: int,
    style: Style,
) -> CellView {
    if py == y && x <= px < end && px - x < text.len() {
        patched(c, text[px - x], style)
    } else {
        c
    }
}

/// The cells after `text` was written from `(x, y)` on.
pub open spec fn with_text(
    cells: Map<(int, int), CellView>,
    text: Seq<char>,
    x: int,
    y: int,
    end: int,
    style: Style,
) -> Map<(int, int), CellView> {
    Map::new(
        |p: (int, int)| cells.contains_key(p),
        |p: (int, int)| lettered(cells[p], p.0, p.1, text, x, y, end, style),
    )
}

fn write_str(buf: &mut Buffer, x: u16, y: u16, s: &str, style: Style, clip: Rect)
    requires
        nameable(style),
        clip.fits(),
    ensures
        buffer_cells(*final(buf)) == with_text(
            buffer_cells(*old(buf)),
            s@,
            x as int,
            y as int,
            clip.x + clip.width,
            style,
        ),
{
    let end: u16 = clip.x + clip.width;
    let chars = chars_of(s);
    let ghost start = buffer_cells(*buf);
    let mut i: usize = 0;
    let mut cx: u16 = x;
    assert(start =~= with_text(start, s@.take(0), x as int, y as int, end as int, style));
    while i < chars.len() && cx < end
        invariant
            i <= chars@.len(),
            chars@ == s@,
            cx == x + i,
            nameable(style),
            buffer_cells(*buf) == with_text(
                start,
                s@.take(i as int),
                x as int,
                y as int,
                end as int,
                style,
            ),
        decreases chars@.len() - i,
    {
        set_cell(buf, cx, y, chars[i], style);
        i = i + 1;
        cx = cx + 1;
        assert(buffer_cells(*buf) =~= with_text(
            start,
            s@.take(i as int),
            x as int,
            y as int,
            end as int,
            style,
        ));
    }
    assert(buffer_cells(*buf) =~= with_text(start, s@, x as int, y as int, end as int, style));
}

// ---------------------------------------------------------------------------
// Blocks
// ---------------------------------------------------------------------------

/// The style of a block.
#[verifier::allow_in_spec]
pub fn color_for(size: u64, is_dir: bool) -> Style
    returns
        (if is_dir {
            Style::plain().fg(Color::Blue).bold()
        } else if size < MB {
            Style::plain().fg(Color::Green)
        } else if size <= 104_857_600 {
            Style::plain().fg(Color::Yellow)
        } else {
            Style::plain().fg(Color::Red).bold()
        }),
{
    if is_dir {
        Style::plain().fg(Color::Blue).bold()
    } else if size < MB {
        Style::plain().fg(Color::Green)
    } else if size <= 104_857_600 {
        Style::plain().fg(Color::Yellow)
    } else {
        Style::plain().fg(Color::Red).bold()
    }
}

/// A text of at most `max` characters: cut off with an ellipsis where it is
/// longer, if there is room for more than that.
pub open spec fn shortened(s: Seq<char>, max: nat) -> Seq<char> {
    if s.len() <= max {
        s
    } else if max <= 1 {
        s.take(max as int)
    } else {
        s.take(max - 1).push('…')
    }
}

/// A text of at most `max` characters.
pub fn truncate_to(s: &str, max: usize) -> (r: String)
    ensures
        r@ == shortened(s@, max as nat),
        r@.len() <= max,
{
    let count = s.unicode_len();
    if count <= max {
        return s.to_owned();
    }
    if max <= 1 {
        return take_chars(s, max);
    }
    let mut out = take_chars(s, max - 1);
    push_char(&mut out, '…');
    out
}

/// An entry and the area that it is given.
pub struct Block<'a> {
    pub node: &'a Node,
    pub rect: Rect,
}

/// The mathematical form of a [`Block`].
pub struct BlockView {
    pub node: Node,
    pub rect: Rect,
}

impl<'a> View for Block<'a> {
    type V = BlockView;

    open spec fn view(&self) -> BlockView {
        BlockView { node: *self.node, rect: self.rect }
    }
}

/// The blocks of a list.
pub open spec fn block_views(v: Seq<Block<'_>>) -> Seq<BlockView> {
    v.map_values(|b: Block<'_>| b@)
}

/// The style of an entry's name in its block.
#[verifier::allow_in_spec]
pub fn label_style(size: u64, is_dir: bool) -> Style
    returns
        (if is_dir {
            color_for(size, is_dir).bold()
        } else {
            color_for(size, is_dir).remove_modifier(Modifiers::just_bold())
        }),
{
    if is_dir {
        color_for(size, is_dir).bold()
    } else {
        color_for(size, is_dir).remove_modifier(Modifiers::just_bold())
    }
}

/// The style of an entry's size in its block, and of a block that is too small
/// for a border.
#[verifier::allow_in_spec]
pub fn shade_style(size: u64, is_dir: bool) -> Style
    returns
        Style::plain().fg(fg_or(color_for(size, is_dir), Color::Gray)).dim(),
{
    Style::plain().fg(fg_or(color_for(size, is_dir), Color::Gray)).dim()
}

/// The symbol of a border at `(x, y)`, if there is one.
pub open spec fn border_symbol(r: Rect, x: int, y: int) -> Option<char> {
    let left = x == r.x;
    let right = x == r.x + r.width - 1;
    let top = y == r.y;
    let bottom = y == r.y + r.height - 1;
    if left && top {
        Some('┌')
    } else if right && top {
        Some('┐')
    } else if left && bottom {
        Some('└')
    } else if right && bottom {
        Some('┘')
    } else if top || bottom {
        Some('─')
    } else if left || right {
        Some('│')
    } else {
        None
    }
}

/// The row of an entry's name in its block: in the middle, or just above it.
pub open spec fn name_row(r: Rect) -> int {
    if r.height >= 4 {
        r.y + 1 + (r.height - 4) / 2
    } else {
        r.y + 1
    }
}

/// The first column of a text of `n` characters that is centered in a block.
pub open spec fn text_column(r: Rect, n: nat) -> int {
    r.x + 1 + (r.width - 2 - n) / 2
}

/// What is inside a block's border at `(x, y)`: the entry's name, and below it
/// its size where there is room.
pub open spec fn inside_cell(c: CellView, n: Node, r: Rect, x: int, y: int) -> CellView {
    let name = shortened(n.name@, (r.width - 2) as nat);
    let size = shortened(human_text(n.size), (r.width - 2) as nat);
    let end = r.x + r.width;
    let blank = patched(c, ' ', Style::plain());
    let named = lettered(
        blank,
        x,
        y,
        name,
        text_column(r, name.len()),
        name_row(r),
        end,
        label_style(n.size, n.is_dir),
    );
    if r.height >= 4 {
        lettered(
            named,
            x,
            y,
            size,
            text_column(r, size.len()),
            name_row(r) + 1,
            end,
            shade_style(n.size, n.is_dir),
        )
    } else {
        named
    }
}

/// What drawing a block makes of the cell at `(x, y)`.
pub open spec fn block_cell(c: CellView, b: BlockView, x: int, y: int) -> CellView {
    let r = b.rect;
    let n = b.node;
    if !r.has(x, y) || r.width < MIN_W || r.height < MIN_H {
        c
    } else if r.width < TEXT_W || r.height < TEXT_H {
        patched(c, '░', shade_style(n.size, n.is_dir))
    } else {
        match border_symbol(r, x, y) {
            Some(s) => patched(c, s, color_for(n.size, n.is_dir)),
            None => inside_cell(c, n, r, x, y),
        }
    }
}

/// The cells after a block was drawn.
pub open spec fn with_block(cells: Map<(int, int), CellView>, b: BlockView) -> Map<
    (int, int),
    CellView,
> {
    Map::new(
        |p: (int, int)| cells.contains_key(p),
        |p: (int, int)| block_cell(cells[p], b, p.0, p.1),
    )
}

/// The cells after blocks were drawn one after the other.
pub open spec fn with_blocks(cells: Map<(int, int), CellView>, bs: Seq<BlockView>) -> Map<
    (int, int),
    CellView,
>
    decreases bs.len(),
{
    if bs.len() == 0 {
        cells
    } else {
        with_block(with_blocks(cells, bs.drop_last()), bs.last())
    }
}

/// The cells of an area that a row by row pass has reached.
spec fn reached(r: Rect, x: int, y: int, p: (int, int)) -> bool {
    r.has(p.0, p.1) && (p.1 < y || (p.1 == y && p.0 < x))
}

/// The cells of `start`, with the block drawn as far as a row by row pass has
/// reached.
spec fn partly_drawn(
    start: Map<(int, int), CellView>,
    b: BlockView,
    x: int,
    y: int,
) -> Map<(int, int), CellView> {
    Map::new(
        |p: (int, int)| start.contains_key(p),
        |p: (int, int)|
            if reached(b.rect, x, y, p) {
                block_cell(start[p], b, p.0, p.1)
            } else {
                start[p]
            },
    )
}

fn draw_shade(n: &Node, r: Rect, x: u16, y: u16, buf: &mut Buffer)
    requires
        r.has(x as int, y as int),
        MIN_W <= r.width,
        MIN_H <= r.height,
        r.width < TEXT_W || r.height < TEXT_H,
    ensures
        buffer_cells(*final(buf)) == cell_drawn(
            buffer_cells(*old(buf)),
            BlockView { node: *n, rect: r },
            (x as int, y as int),
        ),
{
    set_cell(buf, x, y, '░', shade_style(n.size, n.is_dir));
}

/// The cells after one cell of a block was drawn.
spec fn cell_drawn(cells: Map<(int, int), CellView>, b: BlockView, at: (int, int)) -> Map<
    (int, int),
    CellView,
> {
    if cells.contains_key(at) {
        cells.insert(at, block_cell(cells[at], b, at.0, at.1))
    } else {
        cells
    }
}

/// The texts of a block and where they start.
struct Labels {
    name: Vec<char>,
    name_x: u16,
    name_y: u16,
    size: Vec<char>,
    size_x: u16,
}

spec fn labels_of(l: Labels, n: Node, r: Rect) -> bool {
    &&& l.name@ == shortened(n.name@, (r.width - 2) as nat)
    &&& l.size@ == shortened(human_text(n.size), (r.width - 2) as nat)
    &&& l.name_x == text_column(r, l.name@.len())
    &&& l.size_x == text_column(r, l.size@.len())
    &&& l.name_y == name_row(r)
    &&& l.name@.len() <= r.width - 2
    &&& l.size@.len() <= r.width - 2
}

fn labels(n: &Node, r: Rect) -> (l: Labels)
    requires
        r.fits(),
        r.width >= TEXT_W,
        r.height >= TEXT_H,
    ensures
        labels_of(l, *n, r),
{
    let room: usize = (r.width - 2) as usize;
    let name = chars_of(&truncate_to(&n.name, room));
    let size = chars_of(&truncate_to(&human_size(n.size), room));
    let name_x: u16 = r.x + 1 + ((room - name.len()) / 2) as u16;
    let size_x: u16 = r.x + 1 + ((room - size.len()) / 2) as u16;
    let name_y: u16 = if r.height >= 4 {
        r.y + 1 + (r.height - 4) / 2
    } else {
        r.y + 1
    };
    Labels { name, name_x, name_y, size, size_x }
}

fn draw_inside(n: &Node, r: Rect, l: &Labels, x: u16, y: u16, buf: &mut Buffer)
    requires
        r.fits(),
        r.width >= TEXT_W,
        r.height >= TEXT_H,
        r.has(x as int, y as int),
        border_symbol(r, x as int, y as int) is None,
        labels_of(*l, *n, r),
    ensures
        buffer_cells(*final(buf)) == cell_drawn(
            buffer_cells(*old(buf)),
            BlockView { node: *n, rect: r },
            (x as int, y as int),
        ),
{
    let ghost start = buffer_cells(*buf);
    let ghost at = (x as int, y as int);
    set_cell(buf, x, y, ' ', Style::plain());
    if y == l.name_y && x >= l.name_x && ((x - l.name_x) as usize) < l.name.len() {
        set_cell(buf, x, y, l.name[(x - l.name_x) as usize], label_style(n.size, n.is_dir));
    } else if r.height >= 4 && y == l.name_y + 1 && x >= l.size_x && ((x - l.size_x) as usize)
        < l.size.len() {
        set_cell(buf, x, y, l.size[(x - l.size_x) as usize], shade_style(n.size, n.is_dir));
    }
    assert(buffer_cells(*buf) =~= cell_drawn(start, BlockView { node: *n, rect: r }, at));
}

fn draw_bordered(n: &Node, r: Rect, l: &Labels, x: u16, y: u16, buf: &mut Buffer)
    requires
        r.fits(),
        r.width >= TEXT_W,
        r.height >= TEXT_H,
        r.has(x as int, y as int),
        labels_of(*l, *n, r),
    ensures
        buffer_cells(*final(buf)) == cell_drawn(
            buffer_cells(*old(buf)),
            BlockView { node: *n, rect: r },
            (x as int, y as int),
        ),
{
    let style = color_for(n.size, n.is_dir);
    let left = x == r.x;
    let right = x == r.x + r.width - 1;
    let top = y == r.y;
    let bottom = y == r.y + r.height - 1;
    if left && top {
        set_cell(buf, x, y, '┌', style);
    } else if right && top {
        set_cell(buf, x, y, '┐', style);
    } else if left && bottom {
        set_cell(buf, x, y, '└', style);
    } else if right && bottom {
        set_cell(buf, x, y, '┘', style);
    } else if top || bottom {
        set_cell(buf, x, y, '─', style);
    } else if left || right {
        set_cell(buf, x, y, '│', style);
    } else {
        draw_inside(n, r, l, x, y, buf);
    }
}

/// Draws a block: shaded where it is small, else with a border, the entry's
/// name and its size.
pub fn draw_block(node: &Node, r: Rect, buf: &mut Buffer)
    requires
        r.fits(),
    ensures
        buffer_cells(*final(buf)) == with_block(
            buffer_cells(*old(buf)),
            BlockView { node: *node, rect: r },
        ),
{
    let ghost start = buffer_cells(*buf);
    let ghost b = BlockView { node: *node, rect: r };
    if r.width < MIN_W || r.height < MIN_H {
        assert(start =~= with_block(start, b));
        return;
    }
    let small = r.width < TEXT_W || r.height < TEXT_H;
    let l: Labels = if small {
        Labels { name: Vec::new(), name_x: 0, name_y: 0, size: Vec::new(), size_x: 0 }
    } else {
        labels(node, r)
    };
    let x_end: u16 = r.x + r.width;
    let y_end: u16 = r.y + r.height;
    let mut y: u16 = r.y;
    assert(start =~= partly_drawn(start, b, r.x as int, r.y as int));
    while y < y_end
        invariant
            r.fits(),
            x_end == r.x + r.width,
            y_end == r.y + r.height,
            r.y <= y <= y_end,
            MIN_W <= r.width,
            MIN_H <= r.height,
            small == (r.width < TEXT_W || r.height < TEXT_H),
            !small ==> labels_of(l, *node, r),
            b == (BlockView { node: *node, rect: r }),
            buffer_cells(*buf) == partly_drawn(start, b, r.x as int, y as int),
        decreases y_end - y,
    {
        let mut x: u16 = r.x;
        while x < x_end
            invariant
                r.fits(),
                x_end == r.x + r.width,
                y_end == r.y + r.height,
                r.y <= y < y_end,
                r.x <= x <= x_end,
                MIN_W <= r.width,
                MIN_H <= r.height,
                small == (r.width < TEXT_W || r.height < TEXT_H),
                !small ==> labels_of(l, *node, r),
                b == (BlockView { node: *node, rect: r }),
                buffer_cells(*buf) == partly_drawn(start, b, x as int, y as int),
            decreases x_end - x,
        {
            if small {
                draw_shade(node, r, x, y, buf);
            } else {
                draw_bordered(node, r, &l, x, y, buf);
            }
            x = x + 1;
            assert(buffer_cells(*buf) =~= partly_drawn(start, b, x as int, y as int));
        }
        y = y + 1;
        assert(buffer_cells(*buf) =~= partly_drawn(start, b, r.x as int, y as int));
    }
    assert(buffer_cells(*buf) =~= with_block(start, b));
}

// ---------------------------------------------------------------------------
// Layout
// ---------------------------------------------------------------------------

/// The sizes of the children of every directory can be added up.
pub open spec fn addable(n: Node) -> bool
    decreases n,
{
    total_size(n.children@) <= u64::MAX && all_addable(n.children@)
}

/// [`addable`] holds of every tree of a list.
pub open spec fn all_addable(s: Seq<Node>) -> bool
    decreases s,
{
    s.len() > 0 ==> all_addable(s.drop_last()) && addable(s.last())
}

/// Whether an entry gets a block: it is not empty, large enough, and a
/// directory unless files are shown.
pub open spec fn mapped(c: Node, opts: RenderOptions) -> bool {
    &&& c.size >= opts.min_size
    &&& c.size > 0
    &&& opts.show_files || c.is_dir
}

/// The children that get a block.
pub open spec fn mapped_children(n: Node, opts: RenderOptions) -> Seq<Node> {
    n.children@.filter(|c: Node| mapped(c, opts))
}

/// The largest first.
pub open spec fn by_size(s: Seq<Node>) -> Seq<Node> {
    sorted_nodes(s, SortBy::Size, SortOrder::Desc)
}

/// The first `k`, from there on, that are at least half of all; all but one at
/// most.
pub open spec fn split_from(items: Seq<Node>, k: nat) -> nat
    decreases items.len() - k,
{
    if k + 1 >= items.len() || total_size(items.take(k as int)) >= total_size(items) / 2 {
        k
    } else {
        split_from(items, k + 1)
    }
}

/// How many of `extent` cells the first of two groups takes; one is left for
/// each.
pub open spec fn first_extent(extent: u16, part: nat, whole: nat) -> u16 {
    let v = share_cells(extent as nat, part, whole);
    if v < 1 {
        1
    } else if v > extent - 1 {
        (extent - 1) as u16
    } else {
        v as u16
    }
}

/// The part of an area for the first of two groups.
pub open spec fn first_part(r: Rect, part: nat, whole: nat) -> Rect {
    if r.width > 2 * r.height {
        Rect { width: first_extent(r.width, part, whole), ..r }
    } else {
        Rect { height: first_extent(r.height, part, whole), ..r }
    }
}

/// The part of an area for the second of two groups.
pub open spec fn second_part(r: Rect, part: nat, whole: nat) -> Rect {
    if r.width > 2 * r.height {
        let w = first_extent(r.width, part, whole);
        Rect { x: (r.x + w) as u16, width: (r.width - w) as u16, ..r }
    } else {
        let h = first_extent(r.height, part, whole);
        Rect { y: (r.y + h) as u16, height: (r.height - h) as u16, ..r }
    }
}

/// The depth to which directories are laid out, at least one.
pub open spec fn map_depth(opts: RenderOptions) -> nat {
    if opts.depth == 0 {
        1
    } else {
        opts.depth as nat
    }
}

/// The area inside a block that is left for the children.
pub open spec fn children_area(r: Rect) -> Rect {
    Rect {
        x: (r.x + 1) as u16,
        y: (r.y + 3) as u16,
        width: minus16(r.width, 2),
        height: minus16(r.height, 4),
    }
}

/// The blocks of some entries in an area.
pub open spec fn layout_blocks(items: Seq<Node>, r: Rect, depth: nat, opts: RenderOptions) -> Seq<
    BlockView,
>
    decreases map_depth(opts) - depth, items.len(),
{
    if r.width < MIN_W || r.height < MIN_H || items.len() == 0 {
        Seq::empty()
    } else if items.len() == 1 {
        seq![BlockView { node: items[0], rect: r }] + blocks_inside(items[0], r, depth, opts)
    } else {
        let k = split_from(items, 1) as int;
        let part = total_size(items.take(k));
        let whole = total_size(items);
        if whole == 0 || !(0 < k < items.len()) {
            Seq::empty()
        } else {
            layout_blocks(items.take(k), first_part(r, part, whole), depth, opts) + layout_blocks(
                items.skip(k),
                second_part(r, part, whole),
                depth,
                opts,
            )
        }
    }
}

/// The blocks of a directory's children inside its block.
pub open spec fn blocks_inside(n: Node, r: Rect, depth: nat, opts: RenderOptions) -> Seq<BlockView>
    decreases map_depth(opts) - depth, 0nat,
{
    if !n.is_dir || depth + 1 >= map_depth(opts) || r.width < TEXT_W + 2 || r.height < TEXT_H + 2 {
        Seq::empty()
    } else {
        layout_blocks(by_size(mapped_children(n, opts)), children_area(r), depth + 1, opts)
    }
}

/// Where a header of `n` characters continues with the size.
pub open spec fn size_column(area: Rect, n: nat) -> u16 {
    plus16(area.x, (n % 65536 + 2) as u16)
}

/// The area below the header.
pub open spec fn body_of(area: Rect) -> Rect {
    Rect { y: plus16(area.y, 1), height: minus16(area.height, 1), ..area }
}

/// The blocks of a whole treemap.
pub open spec fn map_blocks(n: Node, opts: RenderOptions, area: Rect) -> Seq<BlockView> {
    if n.is_dir {
        layout_blocks(
            by_size(sorted_nodes(mapped_children(n, opts), opts.sort, opts.sort_order)),
            body_of(area),
            0,
            opts,
        )
    } else {
        Seq::empty()
    }
}

/// The cells after a treemap was drawn: the path and the size in the first
/// row, the blocks below.
pub open spec fn with_treemap(
    cells: Map<(int, int), CellView>,
    n: Node,
    opts: RenderOptions,
    area: Rect,
) -> Map<(int, int), CellView> {
    if area.width == 0 || area.height == 0 {
        cells
    } else {
        let end = area.x + area.width;
        let titled = with_text(
            cells,
            n.path@,
            area.x as int,
            area.y as int,
            end,
            Style::plain().bold(),
        );
        let headed = with_text(
            titled,
            human_text(n.size),
            size_column(area, n.path@.len()) as int,
            area.y as int,
            end,
            color_for(n.size, n.is_dir),
        );
        with_blocks(headed, map_blocks(n, opts, area))
    }
}

/// Every entry of a list is not empty and can be laid out.
spec fn all_layable(s: Seq<Node>) -> bool {
    forall|i: int| 0 <= i < s.len() ==> (#[trigger] s[i]).size > 0 && addable(s[i])
}

proof fn lemma_addable_children(s: Seq<Node>)
    requires
        all_addable(s),
    ensures
        forall|i: int| 0 <= i < s.len() ==> addable(#[trigger] s[i]),
    decreases s.len(),
{
    if s.len() > 0 {
        lemma_addable_children(s.drop_last());
        assert forall|i: int| 0 <= i < s.len() implies addable(#[trigger] s[i]) by {
            if i < s.len() - 1 {
                assert(s.drop_last()[i] == s[i]);
            }
        }
    }
}

/// A tree whose sizes add up can be laid out.
pub proof fn consistent_tree_is_addable(n: Node)
    requires
        sizes_add_up(n),
    ensures
        addable(n),
    decreases n,
{
    lemma_consistent_list(n.children@);
}

proof fn lemma_consistent_list(s: Seq<Node>)
    requires
        all_add_up(s),
    ensures
        all_addable(s),
    decreases s,
{
    if s.len() > 0 {
        lemma_consistent_list(s.drop_last());
        consistent_tree_is_addable(s.last());
    }
}

proof fn lemma_filter_total(s: Seq<Node>, pred: spec_fn(Node) -> bool)
    ensures
        total_size(s.filter(pred)) <= total_size(s),
    decreases s.len(),
{
    reveal(Seq::filter);
    if s.len() > 0 {
        lemma_filter_total(s.drop_last(), pred);
        if pred(s.last()) {
            let f = s.drop_last().filter(pred);
            assert(f.push(s.last()).drop_last() =~= f);
        }
    }
}

proof fn lemma_inserted_total(
    s: Seq<Node>,
    keys: Seq<KeyView>,
    desc: bool,
    p: Seq<int>,
    x: int,
)
    ensures
        total_size(picked(s, with_inserted(keys, desc, p, x))) == total_size(picked(s, p))
            + s[x].size,
    decreases p.len(),
{
    let w = with_inserted(keys, desc, p, x);
    if p.len() > 0 && crate::order::precedes(keys, desc, x, p.last()) {
        lemma_inserted_total(s, keys, desc, p.drop_last(), x);
        assert(picked(s, w).drop_last() =~= picked(
            s,
            with_inserted(keys, desc, p.drop_last(), x),
        ));
        assert(picked(s, p).drop_last() =~= picked(s, p.drop_last()));
    } else {
        assert(picked(s, w).drop_last() =~= picked(s, p));
    }
}

proof fn lemma_sorted_total(s: Seq<Node>, keys: Seq<KeyView>, desc: bool, n: nat)
    requires
        n <= s.len(),
    ensures
        total_size(picked(s, order_upto(keys, desc, n))) == total_size(s.take(n as int)),
    decreases n,
{
    if n == 0 {
        assert(picked(s, order_upto(keys, desc, 0)) =~= Seq::<Node>::empty());
        assert(s.take(0) =~= Seq::<Node>::empty());
    } else {
        let m = (n - 1) as nat;
        lemma_sorted_total(s, keys, desc, m);
        lemma_inserted_total(s, keys, desc, order_upto(keys, desc, m), n - 1);
        assert(s.take(n as int).drop_last() =~= s.take(m as int));
    }
}

/// Sorting keeps the entries: their number, their total size, and what holds
/// of each.
proof fn lemma_sorted_same(s: Seq<Node>, sort: SortBy, order: SortOrder)
    ensures
        sorted_nodes(s, sort, order).len() == s.len(),
        total_size(sorted_nodes(s, sort, order)) == total_size(s),
        forall|i: int|
            0 <= i < s.len() ==> s.contains(#[trigger] sorted_nodes(s, sort, order)[i]),
{
    let keys = node_keys(s, sort);
    let desc = order == SortOrder::Desc;
    let p = stable_order(keys, desc);
    stable_order_sorts(keys, desc);
    lemma_sorted_total(s, keys, desc, s.len());
    assert(s.take(s.len() as int) =~= s);
    assert forall|i: int| 0 <= i < s.len() implies s.contains(
        #[trigger] sorted_nodes(s, sort, order)[i],
    ) by {
        assert(p.contains(p[i]));
        assert(s[p[i]] == picked(s, p)[i]);
    }
}

/// What the layout needs holds of a directory's children.
proof fn lemma_children_layable(n: Node, opts: RenderOptions)
    requires
        addable(n),
    ensures
        all_layable(mapped_children(n, opts)),
        total_size(mapped_children(n, opts)) <= u64::MAX,
{
    let pred = |c: Node| mapped(c, opts);
    let s = n.children@;
    lemma_filter_total(s, pred);
    lemma_filter_passes(s, pred);
    lemma_addable_children(s);
    let f = mapped_children(n, opts);
    assert forall|i: int| 0 <= i < f.len() implies (#[trigger] f[i]).size > 0 && addable(f[i]) by {
        assert(pred(f[i]));
        assert(s.contains(f[i]));
        let j = choose|j: int| 0 <= j < s.len() && s[j] == f[i];
        assert(addable(s[j]));
    }
}

proof fn lemma_sorted_layable(s: Seq<Node>, sort: SortBy, order: SortOrder)
    requires
        all_layable(s),
    ensures
        all_layable(sorted_nodes(s, sort, order)),
{
    lemma_sorted_same(s, sort, order);
    let t = sorted_nodes(s, sort, order);
    assert forall|i: int| 0 <= i < t.len() implies (#[trigger] t[i]).size > 0 && addable(t[i]) by {
        assert(s.contains(t[i]));
    }
}

proof fn lemma_total_positive(s: Seq<Node>)
    requires
        s.len() > 0,
        all_layable(s),
    ensures
        total_size(s) > 0,
{
    assert(s.last() == s[s.len() - 1]);
}

proof fn lemma_total_split(s: Seq<Node>, k: int)
    requires
        0 <= k <= s.len(),
    ensures
        total_size(s) == total_size(s.take(k)) + total_size(s.skip(k)),
    decreases s.len(),
{
    if k == s.len() {
        assert(s.take(k) =~= s);
        assert(s.skip(k) =~= Seq::<Node>::empty());
    } else {
        lemma_total_split(s.drop_last(), k);
        assert(s.drop_last().take(k) =~= s.take(k));
        assert(s.skip(k).drop_last() =~= s.drop_last().skip(k));
    }
}

fn first_cells(extent: u16, part: u64, whole: u64) -> (r: u16)
    requires
        0 < part <= whole,
        extent >= 2,
    ensures
        r == first_extent(extent, part as nat, whole as nat),
        1 <= r < extent,
{
    let v = share_of_cells(extent, part, whole);
    if v < 1 {
        1
    } else if v > (extent - 1) as u128 {
        extent - 1
    } else {
        v as u16
    }
}

fn gather<'a>(node: &'a Node, opts: &RenderOptions) -> (r: Vec<&'a Node>)
    ensures
        nodes_of(r@) == mapped_children(*node, *opts),
{
    let ghost pred = |c: Node| mapped(c, *opts);
    let ghost all = node.children@;
    let mut out: Vec<&'a Node> = Vec::new();
    let mut i: usize = 0;
    proof {
        lemma_filter_none(all, pred);
        assert(nodes_of(out@) =~= Seq::<Node>::empty());
    }
    while i < node.children.len()
        invariant
            i <= all.len(),
            all == node.children@,
            pred == (|c: Node| mapped(c, *opts)),
            nodes_of(out@) == all.take(i as int).filter(pred),
        decreases all.len() - i,
    {
        proof {
            lemma_filter_step(all, i as int, pred);
        }
        let ghost before = nodes_of(out@);
        let c = &node.children[i];
        if c.size >= opts.min_size && c.size > 0 && (opts.show_files || c.is_dir) {
            out.push(c);
            assert(nodes_of(out@) =~= before.push(*c));
        }
        i = i + 1;
    }
    proof {
        lemma_filter_all(all, pred);
    }
    out
}

/// The sum of the sizes of `items[lo..hi]`.
fn sum_of(items: &Vec<&Node>, lo: usize, hi: usize) -> (r: u64)
    requires
        lo <= hi <= items@.len(),
        total_size(nodes_of(items@).subrange(lo as int, hi as int)) <= u64::MAX,
    ensures
        r == total_size(nodes_of(items@).subrange(lo as int, hi as int)),
{
    let ghost s = nodes_of(items@).subrange(lo as int, hi as int);
    let mut sum: u64 = 0;
    let mut i: usize = lo;
    assert(s.take(0) =~= Seq::<Node>::empty());
    while i < hi
        invariant
            lo <= i <= hi <= items@.len(),
            s == nodes_of(items@).subrange(lo as int, hi as int),
            total_size(s) <= u64::MAX,
            sum == total_size(s.take(i - lo)),
        decreases hi - i,
    {
        proof {
            lemma_total_split(s, i + 1 - lo);
            assert(s.take(i + 1 - lo).drop_last() =~= s.take(i - lo));
            assert(s.take(i + 1 - lo).last() == *items@[i as int]);
        }
        sum = sum + items[i].size;
        i = i + 1;
    }
    assert(s.take(hi - lo) =~= s);
    sum
}

/// The number of items of the first group of `items[lo..hi]`.
fn split_point(items: &Vec<&Node>, lo: usize, hi: usize, total: u64) -> (r: usize)
    requires
        lo <= hi <= items@.len(),
        hi - lo >= 2,
        total == total_size(nodes_of(items@).subrange(lo as int, hi as int)),
    ensures
        r == split_from(nodes_of(items@).subrange(lo as int, hi as int), 1),
        0 < r < hi - lo,
{
    let ghost s = nodes_of(items@).subrange(lo as int, hi as int);
    let half: u64 = total / 2;
    let mut acc: u64 = items[lo].size;
    let mut k: usize = 1;
    proof {
        assert(s.take(1).drop_last() =~= Seq::<Node>::empty());
        assert(total_size(s.take(1).drop_last()) == 0);
        assert(s.take(1).last() == *items@[lo as int]);
        lemma_total_split(s, 1);
    }
    while k + 1 < hi - lo && acc < half
        invariant
            lo <= hi <= items@.len(),
            hi - lo >= 2,
            s == nodes_of(items@).subrange(lo as int, hi as int),
            total == total_size(s),
            half == total / 2,
            1 <= k < hi - lo,
            acc == total_size(s.take(k as int)),
            split_from(s, 1) == split_from(s, k as nat),
        decreases hi - lo - k,
    {
        proof {
            lemma_total_split(s, k + 1);
            assert(s.take(k + 1).drop_last() =~= s.take(k as int));
            assert(s.take(k + 1).last() == *items@[lo + k]);
        }
        acc = acc + items[lo + k].size;
        k = k + 1;
    }
    k
}

/// What holds of a list holds of its parts.
proof fn lemma_groups(all: Seq<Node>, lo: int, hi: int, k: int)
    requires
        0 <= lo < lo + k < hi <= all.len(),
        all_layable(all.subrange(lo, hi)),
        total_size(all.subrange(lo, hi)) <= u64::MAX,
    ensures
        all.subrange(lo, hi).take(k) == all.subrange(lo, lo + k),
        all.subrange(lo, hi).skip(k) == all.subrange(lo + k, hi),
        all_layable(all.subrange(lo, lo + k)),
        all_layable(all.subrange(lo + k, hi)),
        0 < total_size(all.subrange(lo, lo + k)) <= total_size(all.subrange(lo, hi)),
        total_size(all.subrange(lo + k, hi)) <= u64::MAX,
{
    let s = all.subrange(lo, hi);
    let a = s.take(k);
    let z = s.skip(k);
    lemma_total_split(s, k);
    assert(a =~= all.subrange(lo, lo + k));
    assert(z =~= all.subrange(lo + k, hi));
    assert forall|i: int| 0 <= i < a.len() implies (#[trigger] a[i]).size > 0 && addable(
        a[i],
    ) by {
        assert(a[i] == s[i]);
    }
    assert forall|i: int| 0 <= i < z.len() implies (#[trigger] z[i]).size > 0 && addable(
        z[i],
    ) by {
        assert(z[i] == s[i + k]);
    }
    lemma_total_positive(a);
}

/// The number of items of the first group of `items[lo..hi]`, and the parts of
/// the area for the two groups.
fn divide(items: &Vec<&Node>, lo: usize, hi: usize, rect: Rect) -> (r: (usize, Rect, Rect))
    requires
        lo <= hi <= items@.len(),
        hi - lo >= 2,
        rect.fits(),
        rect.width >= MIN_W,
        rect.height >= MIN_H,
        all_layable(nodes_of(items@).subrange(lo as int, hi as int)),
        total_size(nodes_of(items@).subrange(lo as int, hi as int)) <= u64::MAX,
    ensures
        0 < r.0 < hi - lo,
        r.0 == split_from(nodes_of(items@).subrange(lo as int, hi as int), 1),
        r.1 == first_part(
            rect,
            total_size(nodes_of(items@).subrange(lo as int, hi as int).take(r.0 as int)),
            total_size(nodes_of(items@).subrange(lo as int, hi as int)),
        ),
        r.2 == second_part(
            rect,
            total_size(nodes_of(items@).subrange(lo as int, hi as int).take(r.0 as int)),
            total_size(nodes_of(items@).subrange(lo as int, hi as int)),
        ),
        total_size(nodes_of(items@).subrange(lo as int, hi as int)) > 0,
        r.1.fits(),
        r.2.fits(),
{
    let ghost s = nodes_of(items@).subrange(lo as int, hi as int);
    let total = sum_of(items, lo, hi);
    let k = split_point(items, lo, hi, total);
    proof {
        lemma_groups(nodes_of(items@), lo as int, hi as int, k as int);
    }
    let part = sum_of(items, lo, lo + k);
    if rect.width as u32 > rect.height as u32 * 2 {
        let w = first_cells(rect.width, part, total);
        (
            k,
            Rect { x: rect.x, y: rect.y, width: w, height: rect.height },
            Rect { x: rect.x + w, y: rect.y, width: rect.width - w, height: rect.height },
        )
    } else {
        let h = first_cells(rect.height, part, total);
        (
            k,
            Rect { x: rect.x, y: rect.y, width: rect.width, height: h },
            Rect { x: rect.x, y: rect.y + h, width: rect.width, height: rect.height - h },
        )
    }
}

fn layout<'a>(
    items: &Vec<&'a Node>,
    lo: usize,
    hi: usize,
    rect: Rect,
    depth: usize,
    opts: &RenderOptions,
    out: &mut Vec<Block<'a>>,
)
    requires
        lo <= hi <= items@.len(),
        rect.fits(),
        depth < map_depth(*opts),
        all_layable(nodes_of(items@).subrange(lo as int, hi as int)),
        total_size(nodes_of(items@).subrange(lo as int, hi as int)) <= u64::MAX,
    ensures
        block_views(final(out)@) == block_views(old(out)@) + layout_blocks(
            nodes_of(items@).subrange(lo as int, hi as int),
            rect,
            depth as nat,
            *opts,
        ),
    decreases map_depth(*opts) - depth, hi - lo, 1nat,
{
    let ghost s = nodes_of(items@).subrange(lo as int, hi as int);
    let ghost start = block_views(out@);
    if rect.width < MIN_W || rect.height < MIN_H || lo == hi {
        assert(start =~= start + Seq::<BlockView>::empty());
        return;
    }
    if hi - lo == 1 {
        let n = items[lo];
        assert(*n == s[0]);
        out.push(Block { node: n, rect });
        let ghost b = BlockView { node: *n, rect };
        assert(block_views(out@) =~= start + seq![b]);
        recurse_into(n, rect, depth, opts, out);
        assert(block_views(out@) =~= start + layout_blocks(s, rect, depth as nat, *opts));
        return;
    }
    let (k, first, second) = divide(items, lo, hi, rect);
    proof {
        lemma_groups(nodes_of(items@), lo as int, hi as int, k as int);
    }
    layout(items, lo, lo + k, first, depth, opts, out);
    layout(items, lo + k, hi, second, depth, opts, out);
    assert(block_views(out@) =~= start + layout_blocks(s, rect, depth as nat, *opts));
}

fn recurse_into<'a>(
    node: &'a Node,
    rect: Rect,
    depth: usize,
    opts: &RenderOptions,
    out: &mut Vec<Block<'a>>,
)
    requires
        rect.fits(),
        addable(*node),
        depth < map_depth(*opts),
    ensures
        block_views(final(out)@) == block_views(old(out)@) + blocks_inside(
            *node,
            rect,
            depth as nat,
            *opts,
        ),
    decreases map_depth(*opts) - depth, 1nat, 0nat,
{
    let ghost start = block_views(out@);
    let max: usize = if opts.depth == 0 {
        1
    } else {
        opts.depth
    };
    if !node.is_dir || depth + 1 >= max || rect.width < TEXT_W + 2 || rect.height < TEXT_H + 2 {
        assert(start =~= start + Seq::<BlockView>::empty());
        return;
    }
    let inner = Rect {
        x: rect.x + 1,
        y: rect.y + 3,
        width: rect.width.saturating_sub(2),
        height: rect.height.saturating_sub(4),
    };
    let mut visible = gather(node, opts);
    let ghost m = mapped_children(*node, *opts);
    proof {
        lemma_children_layable(*node, *opts);
        lemma_sorted_layable(m, SortBy::Size, SortOrder::Desc);
        lemma_sorted_same(m, SortBy::Size, SortOrder::Desc);
    }
    sort_nodes(&mut visible, SortBy::Size, SortOrder::Desc);
    let n: usize = visible.len();
    assert(n == nodes_of(visible@).len());
    assert(nodes_of(visible@).subrange(0, n as int) =~= by_size(m));
    layout(&visible, 0, n, inner, depth + 1, opts, out);
}

/// Draws a treemap of `node` into `area`.
pub fn render_treemap(node: &Node, opts: &RenderOptions, area: Rect, buf: &mut Buffer)
    requires
        area.fits(),
        addable(*node),
        node.path@.len() % 65536 < 65534,
    ensures
        buffer_cells(*final(buf)) == with_treemap(buffer_cells(*old(buf)), *node, *opts, area),
{
    if area.width == 0 || area.height == 0 {
        return;
    }
    write_str(buf, area.x, area.y, &node.path, Style::plain().bold(), area);
    let len: usize = node.path.as_str().unicode_len();
    let cut: u16 = (len % 65536) as u16;
    let x: u16 = plus16(area.x, cut + 2);
    write_str(buf, x, area.y, &human_size(node.size), color_for(node.size, node.is_dir), area);
    let ghost headed = buffer_cells(*buf);
    if !node.is_dir {
        return;
    }
    let body = Rect {
        x: area.x,
        y: plus16(area.y, 1),
        width: area.width,
        height: minus16(area.height, 1),
    };
    let mut visible = gather(node, opts);
    let ghost m = mapped_children(*node, *opts);
    let ghost t = sorted_nodes(m, opts.sort, opts.sort_order);
    proof {
        lemma_children_layable(*node, *opts);
        lemma_sorted_layable(m, opts.sort, opts.sort_order);
        lemma_sorted_same(m, opts.sort, opts.sort_order);
        lemma_sorted_layable(t, SortBy::Size, SortOrder::Desc);
        lemma_sorted_same(t, SortBy::Size, SortOrder::Desc);
    }
    sort_nodes(&mut visible, opts.sort, opts.sort_order);
    sort_nodes(&mut visible, SortBy::Size, SortOrder::Desc);
    let n: usize = visible.len();
    assert(n == nodes_of(visible@).len());
    assert(nodes_of(visible@).subrange(0, n as int) =~= by_size(t));
    let mut blocks: Vec<Block<'_>> = Vec::new();
    assert(block_views(blocks@) =~= Seq::<BlockView>::empty());
    layout(&visible, 0, n, body, 0, opts, &mut blocks);
    let ghost bs = map_blocks(*node, *opts, area);
    assert(block_views(blocks@) =~= bs);
    proof {
        blocks_stay_inside(by_size(t), body, 0, *opts);
    }
    let mut i: usize = 0;
    assert(bs.take(0) =~= Seq::<BlockView>::empty());
    while i < blocks.len()
        invariant
            i <= blocks@.len(),
            block_views(blocks@) == bs,
            body.fits(),
            forall|j: int| 0 <= j < bs.len() ==> (#[trigger] bs[j]).rect.within(body),
            buffer_cells(*buf) == with_blocks(headed, bs.take(i as int)),
        decreases blocks@.len() - i,
    {
        let b = &blocks[i];
        assert(b@ == bs[i as int]);
        draw_block(b.node, b.rect, buf);
        i = i + 1;
        assert(bs.take(i as int).drop_last() =~= bs.take(i - 1));
    }
    assert(bs.take(i as int) =~= bs);
}

/// Whether the areas of two blocks have no cell in common, or the second lies
/// within the first.
pub open spec fn nested_or_apart(a: BlockView, b: BlockView) -> bool {
    b.rect.within(a.rect) || a.rect.apart(b.rect)
}

proof fn lemma_parts(r: Rect, part: nat, whole: nat)
    requires
        r.fits(),
        r.width >= MIN_W,
        r.height >= MIN_H,
    ensures
        first_part(r, part, whole).within(r),
        second_part(r, part, whole).within(r),
        first_part(r, part, whole).fits(),
        second_part(r, part, whole).fits(),
        first_part(r, part, whole).apart(second_part(r, part, whole)),
{
}

/// Every block lies within the area that was laid out, and of two blocks the
/// later one lies within the earlier one or has no cell in common with it.
pub proof fn blocks_stay_inside(items: Seq<Node>, r: Rect, depth: nat, opts: RenderOptions)
    requires
        r.fits(),
    ensures
        forall|i: int|
            0 <= i < layout_blocks(items, r, depth, opts).len() ==> (#[trigger] layout_blocks(
                items,
                r,
                depth,
                opts,
            )[i]).rect.within(r),
        forall|i: int, j: int|
            0 <= i < j < layout_blocks(items, r, depth, opts).len() ==> nested_or_apart(
                #[trigger] layout_blocks(items, r, depth, opts)[i],
                #[trigger] layout_blocks(items, r, depth, opts)[j],
            ),
    decreases map_depth(opts) - depth, items.len(), 1nat,
{
    let bs = layout_blocks(items, r, depth, opts);
    if r.width < MIN_W || r.height < MIN_H || items.len() == 0 {
    } else if items.len() == 1 {
        let inner = blocks_inside(items[0], r, depth, opts);
        lemma_inside(items[0], r, depth, opts);
        assert(bs =~= seq![BlockView { node: items[0], rect: r }] + inner);
        assert forall|i: int| 0 <= i < bs.len() implies (#[trigger] bs[i]).rect.within(r) by {
            if i > 0 {
                assert(bs[i] == inner[i - 1]);
            }
        }
        assert forall|i: int, j: int| 0 <= i < j < bs.len() implies nested_or_apart(
            #[trigger] bs[i],
            #[trigger] bs[j],
        ) by {
            assert(bs[j] == inner[j - 1]);
            if i > 0 {
                assert(bs[i] == inner[i - 1]);
            }
        }
    } else {
        let k = split_from(items, 1) as int;
        let part = total_size(items.take(k));
        let whole = total_size(items);
        if whole == 0 || !(0 < k < items.len()) {
        } else {
            let r1 = first_part(r, part, whole);
            let r2 = second_part(r, part, whole);
            lemma_parts(r, part, whole);
            let a = layout_blocks(items.take(k), r1, depth, opts);
            let b = layout_blocks(items.skip(k), r2, depth, opts);
            blocks_stay_inside(items.take(k), r1, depth, opts);
            blocks_stay_inside(items.skip(k), r2, depth, opts);
            assert(bs =~= a + b);
            assert forall|i: int| 0 <= i < bs.len() implies (#[trigger] bs[i]).rect.within(r) by {
                if i < a.len() {
                    assert(bs[i] == a[i]);
                } else {
                    assert(bs[i] == b[i - a.len()]);
                }
            }
            assert forall|i: int, j: int| 0 <= i < j < bs.len() implies nested_or_apart(
                #[trigger] bs[i],
                #[trigger] bs[j],
            ) by {
                if j < a.len() {
                    assert(bs[i] == a[i] && bs[j] == a[j]);
                } else if i >= a.len() {
                    assert(bs[i] == b[i - a.len()] && bs[j] == b[j - a.len()]);
                } else {
                    assert(bs[i] == a[i] && bs[j] == b[j - a.len()]);
                    let p = bs[i].rect;
                    let q = bs[j].rect;
                    assert(p.within(r1) && q.within(r2));
                    assert forall|x: int, y: int| !(p.has(x, y) && #[trigger] q.has(x, y)) by {
                        assert(!(r1.has(x, y) && r2.has(x, y)));
                    }
                }
            }
        }
    }
}

proof fn lemma_inside(n: Node, r: Rect, depth: nat, opts: RenderOptions)
    requires
        r.fits(),
    ensures
        forall|i: int|
            0 <= i < blocks_inside(n, r, depth, opts).len() ==> (#[trigger] blocks_inside(
                n,
                r,
                depth,
                opts,
            )[i]).rect.within(r),
        forall|i: int, j: int|
            0 <= i < j < blocks_inside(n, r, depth, opts).len() ==> nested_or_apart(
                #[trigger] blocks_inside(n, r, depth, opts)[i],
                #[trigger] blocks_inside(n, r, depth, opts)[j],
            ),
    decreases map_depth(opts) - depth, 1nat, 0nat,
{
    if !n.is_dir || depth + 1 >= map_depth(opts) || r.width < TEXT_W + 2 || r.height < TEXT_H + 2 {
    } else {
        let inner = children_area(r);
        blocks_stay_inside(by_size(mapped_children(n, opts)), inner, depth + 1, opts);
        let bs = blocks_inside(n, r, depth, opts);
        assert forall|i: int| 0 <= i < bs.len() implies (#[trigger] bs[i]).rect.within(r) by {
            assert(bs[i].rect.within(inner));
        }
    }
}

// ---------------------------------------------------------------------------
// Rows
// ---------------------------------------------------------------------------

/// The style of a cell.
pub open spec fn cell_style(c: CellView) -> Style {
    Style {
        fg: color_of_name(c.fg),
        bg: color_of_name(c.bg),
        add_modifier: modifiers_of(c.bits),
        sub_modifier: Modifiers::none(),
    }
}

/// Whether two cells look the same but for their symbols.
pub open spec fn styles_eq(a: CellView, b: CellView) -> bool {
    a.fg == b.fg && a.bg == b.bg && a.bits == b.bits
}

/// A row of cells as pieces of text, one for each run of cells in one style.
pub open spec fn runs(cells: Seq<CellView>) -> Seq<SpanView>
    decreases cells.len(),
{
    if cells.len() == 0 {
        Seq::empty()
    } else {
        let r = runs(cells.drop_last());
        let c = cells.last();
        if cells.len() >= 2 && styles_eq(cells[cells.len() - 2], c) {
            r.drop_last().push(sp(r.last().content + c.symbol, r.last().style))
        } else {
            r.push(sp(c.symbol, cell_style(c)))
        }
    }
}

/// The cells of row `y`, the first `n` of them.
pub open spec fn row_cells(cells: Map<(int, int), CellView>, y: int, n: nat) -> Seq<CellView> {
    Seq::new(n, |x: int| cells[(x, y)])
}

/// The width at which a treemap is rendered.
#[verifier::allow_in_spec]
pub fn map_width(opts: RenderOptions) -> u16
    returns
        (if opts.width < 20 {
            20u16
        } else {
            opts.width
        }),
{
    if opts.width < 20 {
        20u16
    } else {
        opts.width
    }
}

/// The height at which a treemap is rendered.
#[verifier::allow_in_spec]
pub fn map_height(opts: RenderOptions) -> u16
    returns
        (if opts.height < 8 {
            8u16
        } else {
            opts.height
        }),
{
    if opts.height < 8 {
        8u16
    } else {
        opts.height
    }
}

/// The cells of a whole treemap on an empty screen.
pub open spec fn map_cells(root: Node, opts: RenderOptions) -> Map<(int, int), CellView> {
    let w = map_width(opts);
    let h = map_height(opts);
    with_treemap(
        blank_cells(w, h),
        root,
        opts,
        Rect { x: 0, y: 0, width: w, height: h },
    )
}

/// All rows of a treemap.
pub open spec fn treemap_rows(root: Node, opts: RenderOptions) -> Seq<RowView> {
    Seq::new(
        map_height(opts) as nat,
        |y: int|
            plain_row(runs(row_cells(map_cells(root, opts), y, map_width(opts) as nat))),
    )
}

proof fn lemma_with_blocks_keys(cells: Map<(int, int), CellView>, bs: Seq<BlockView>)
    ensures
        forall|p: (int, int)| #[trigger]
            with_blocks(cells, bs).contains_key(p) <==> cells.contains_key(p),
    decreases bs.len(),
{
    if bs.len() > 0 {
        lemma_with_blocks_keys(cells, bs.drop_last());
        let prev = with_blocks(cells, bs.drop_last());
        assert forall|p: (int, int)| #[trigger]
            with_blocks(cells, bs).contains_key(p) <==> cells.contains_key(p) by {
            assert(with_blocks(cells, bs) == with_block(prev, bs.last()));
            assert(prev.contains_key(p) <==> cells.contains_key(p));
        }
    }
}

fn look(c: &ScreenCell) -> (r: Style)
    ensures
        r == cell_style(c@),
{
    Style {
        fg: color_named(&c.fg),
        bg: color_named(&c.bg),
        add_modifier: Modifiers {
            bold: c.bits & 1 != 0,
            dim: c.bits & 2 != 0,
            italic: c.bits & 4 != 0,
            underlined: c.bits & 8 != 0,
        },
        sub_modifier: Modifiers::none(),
    }
}

fn row_line(buf: &Buffer, y: u16, w: u16) -> (r: Line)
    requires
        forall|x: int| 0 <= x < w ==> #[trigger] buffer_cells(*buf).contains_key((x, y as int)),
    ensures
        r@ == runs(row_cells(buffer_cells(*buf), y as int, w as nat)),
{
    let ghost cells = buffer_cells(*buf);
    let ghost row = row_cells(cells, y as int, w as nat);
    let mut line = Line::new();
    let mut text = String::new();
    let mut prev: Option<ScreenCell> = None;
    let mut x: u16 = 0;
    while x < w
        invariant
            x <= w,
            cells == buffer_cells(*buf),
            row == row_cells(cells, y as int, w as nat),
            forall|k: int| 0 <= k < w ==> #[trigger] cells.contains_key((k, y as int)),
            x == 0 ==> prev is None && line@ == Seq::<SpanView>::empty() && text@.len() == 0,
            x > 0 ==> prev is Some && styles_eq(prev->0@, row[x - 1]) && runs(row.take(x as int))
                == line@.push(sp(text@, cell_style(prev->0@))),
        decreases w - x,
    {
        let ghost t = row.take(x + 1);
        assert(t.drop_last() =~= row.take(x as int));
        assert(cells.contains_key((x as int, y as int)));
        if let Some(cell) = cell_at(buf, x, y) {
            assert(cell@ == row[x as int]);
            assert(t.last() == cell@);
            match prev {
                Some(p) => {
                    assert(t[t.len() - 2] == row[x - 1]);
                    if same_text(&p.fg, &cell.fg) && same_text(&p.bg, &cell.bg) && p.bits
                        == cell.bits {
                        text.append(&cell.symbol);
                        prev = Some(p);
                        assert(runs(t) =~= line@.push(sp(text@, cell_style(p@))));
                    } else {
                        let ghost before = line@;
                        let mut done = String::new();
                        std::mem::swap(&mut done, &mut text);
                        line.push(done, look(&p));
                        text.append(&cell.symbol);
                        assert(text@ =~= cell.symbol@);
                        prev = Some(cell);
                        assert(runs(t) =~= line@.push(sp(text@, cell_style(cell@))));
                    }
                },
                None => {
                    text.append(&cell.symbol);
                    assert(text@ =~= cell.symbol@);
                    assert(runs(row.take(0)) == Seq::<SpanView>::empty());
                    prev = Some(cell);
                    assert(runs(t) =~= line@.push(sp(text@, cell_style(cell@))));
                },
            }
        }
        x = x + 1;
    }
    assert(row.take(w as int) =~= row);
    if let Some(p) = prev {
        line.push(text, look(&p));
    }
    line
}

/// The treemap as rows of text.
pub fn render(root: &Node, opts: &RenderOptions) -> (r: Vec<Row>)
    requires
        addable(*root),
        root.path@.len() % 65536 < 65534,
    ensures
        row_views(r@) == treemap_rows(*root, *opts),
{
    let w = map_width(*opts);
    let h = map_height(*opts);
    let area = Rect { x: 0, y: 0, width: w, height: h };
    let mut buf = empty_buffer(w, h);
    render_treemap(root, opts, area, &mut buf);
    let ghost cells = map_cells(*root, *opts);
    proof {
        let end = area.x + area.width;
        let titled = with_text(
            blank_cells(w, h),
            root.path@,
            0,
            0,
            end,
            Style::plain().bold(),
        );
        let headed = with_text(
            titled,
            human_text(root.size),
            size_column(area, root.path@.len()) as int,
            0,
            end,
            color_for(root.size, root.is_dir),
        );
        lemma_with_blocks_keys(headed, map_blocks(*root, *opts, area));
        assert forall|x: int, y: int|
            0 <= x < w && 0 <= y < h implies #[trigger] cells.contains_key((x, y)) by {
            assert(blank_cells(w, h).contains_key((x, y)));
            assert(titled.contains_key((x, y)));
            assert(headed.contains_key((x, y)));
        }
    }
    let ghost all = treemap_rows(*root, *opts);
    let mut rows: Vec<Row> = Vec::new();
    assert(row_views(rows@) =~= all.take(0));
    let mut y: u16 = 0;
    while y < h
        invariant
            y <= h,
            w == map_width(*opts),
            h == map_height(*opts),
            cells == map_cells(*root, *opts),
            cells == buffer_cells(buf),
            forall|a: int, b: int|
                0 <= a < w && 0 <= b < h ==> #[trigger] cells.contains_key((a, b)),
            all == treemap_rows(*root, *opts),
            row_views(rows@) == all.take(y as int),
        decreases h - y,
    {
        let row = Row::plain(row_line(&buf, y, w));
        assert(row@ == all[y as int]);
        push_row(&mut rows, row);
        y = y + 1;
        assert(all.take(y as int) =~= all.take(y - 1).push(row@));
    }
    assert(all.take(h as int) =~= all);
    rows
}

/// Every color with a name is found again by it.
pub proof fn color_names_round_trip(c: Color)
    requires
        c !is Rgb,
    ensures
        color_of_name(color_name(c)) == Some(c),
{
    reveal_strlit("Reset");
    reveal_strlit("Black");
    reveal_strlit("Red");
    reveal_strlit("Green");
    reveal_strlit("Yellow");
    reveal_strlit("Blue");
    reveal_strlit("Magenta");
    reveal_strlit("Cyan");
    reveal_strlit("Gray");
    reveal_strlit("DarkGray");
    reveal_strlit("LightRed");
    reveal_strlit("LightGreen");
    reveal_strlit("LightYellow");
    reveal_strlit("LightBlue");
    reveal_strlit("LightMagenta");
    reveal_strlit("LightCyan");
    reveal_strlit("White");
    assert("Red"@.len() == 3 && "Blue"@.len() == 4 && "Cyan"@.len() == 4 && "Gray"@.len() == 4);
    assert("Reset"@.len() == 5 && "Black"@.len() == 5 && "Green"@.len() == 5);
    assert("White"@.len() == 5 && "Yellow"@.len() == 6 && "Magenta"@.len() == 7);
    assert("DarkGray"@.len() == 8 && "LightRed"@.len() == 8 && "LightBlue"@.len() == 9);
    assert("LightCyan"@.len() == 9 && "LightGreen"@.len() == 10);
    assert("LightYellow"@.len() == 11 && "LightMagenta"@.len() == 12);
    assert("Reset"@[0] == 'R' && "Black"@[0] == 'B' && "Green"@[0] == 'G' && "White"@[0] == 'W');
    assert("Gray"@[0] == 'G' && "Cyan"@[0] == 'C' && "Blue"@[0] == 'B');
    assert("DarkGray"@[0] == 'D' && "LightRed"@[0] == 'L');
    assert("LightBlue"@[5] == 'B' && "LightCyan"@[5] == 'C');
}

/// Whether the sizes below every directory can be added up.
pub fn can_add_up(n: &Node) -> (r: bool)
    ensures
        r == addable(*n),
    decreases *n,
{
    let ghost all = n.children@;
    let mut sum: u64 = 0;
    let mut i: usize = 0;
    assert(all.take(0) =~= Seq::<Node>::empty());
    while i < n.children.len()
        invariant
            i <= all.len(),
            all == n.children@,
            sum == total_size(all.take(i as int)),
            all_addable(all.take(i as int)),
        decreases all.len() - i,
    {
        let c = &n.children[i];
        proof {
            assert(all.take(i + 1).drop_last() =~= all.take(i as int));
            assert(all.take(i + 1).last() == *c);
            lemma_total_split(all, i + 1);
        }
        match sum.checked_add(c.size) {
            Some(t) => {
                sum = t;
            },
            None => {
                return false;
            },
        }
        if !can_add_up(c) {
            proof {
                if addable(*n) {
                    lemma_addable_children(all);
                    assert(addable(all[i as int]));
                }
            }
            return false;
        }
        i = i + 1;
    }
    assert(all.take(i as int) =~= all);
    true
}

} // verus!
