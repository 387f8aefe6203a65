//! The box that is shown while a scan takes its time.

use vstd::prelude::*;

use crate::bytes::{
    after, byte_len, byte_len_adds, char_index_is_greatest, chars_take_bytes, length, locate,
    on_boundary,
};
use crate::text::{
    center, centered, decimal, decimal_text, last_chars, pad_end, pad_start, padded_end,
    padded_start, push_char, repeat_char, repeated, tail_chars, texts,
};

verus! {

/// The outer size of the box.
pub const BOX_W: u16 = 50;

pub const BOX_H: u16 = 9;

/// The width between its borders.
pub const INNER_W: usize = 48;

/// The width of its progress bar.
pub const BAR_W: usize = 34;

/// The box and where it is drawn.
pub struct Splash {
    pub x: u16,
    pub y: u16,
    pub lines: Vec<String>,
}

/// Whether a long path can be cut: what is shown of it starts at a character.
pub open spec fn path_cuttable(path: Seq<char>) -> bool {
    byte_len(path) > 37 ==> on_boundary(path, (byte_len(path) - 34) as nat)
}

/// A path of at most thirty-seven bytes, or the last thirty-four of a longer
/// one behind three dots.
pub open spec fn short_path(path: Seq<char>) -> Seq<char> {
    if byte_len(path) > 37 {
        "..."@ + after(path, (byte_len(path) - 34) as nat)
    } else {
        path
    }
}

/// Where the bright part of the progress bar is: it moves two columns a tick,
/// to the end and back.
pub open spec fn bar_head(tick: nat) -> int {
    let pos = (tick * 2) % 68;
    if pos < 34 {
        pos as int
    } else {
        68 - pos
    }
}

/// The progress bar.
pub open spec fn bar_text(tick: nat) -> Seq<char> {
    Seq::new(
        34,
        |i: int|
            if -3 <= i - bar_head(tick) <= 3 {
                '█'
            } else {
                '░'
            },
    )
}

/// A line between the borders of the box.
pub open spec fn boxed(s: Seq<char>) -> Seq<char> {
    seq!['│'] + s + seq!['│']
}

/// The lines of the box.
pub open spec fn splash_lines(
    path: Seq<char>,
    tick: nat,
    dirs: nat,
    seconds: nat,
    version: Seq<char>,
) -> Seq<Seq<char>> {
    let blank = boxed(repeated(' ', 48));
    seq![
        seq!['╭'] + repeated('─', 48) + seq!['╮'],
        blank,
        boxed(centered("d i s k v i s"@, 48)),
        boxed(centered("v"@ + version, 48)),
        blank,
        boxed(padded_end(" Scanning "@ + short_path(path), 48)),
        "│ "@ + bar_text(tick) + "  "@ + padded_start(decimal_text(dirs), 5) + " dirs │"@,
        boxed(centered(decimal_text(seconds) + "s elapsed"@, 48)),
        seq!['╰'] + repeated('─', 48) + seq!['╯'],
    ]
}

fn bar(tick: u64) -> (r: String)
    requires
        tick <= u64::MAX / 2,
    ensures
        r@ == bar_text(tick as nat),
{
    let pos: u64 = (tick * 2) % 68;
    let head: usize = if pos < 34 {
        pos as usize
    } else {
        (68 - pos) as usize
    };
    let mut s = String::new();
    let mut i: usize = 0;
    assert(s@ =~= bar_text(tick as nat).take(0));
    while i < BAR_W
        invariant
            i <= BAR_W,
            head == bar_head(tick as nat),
            s@ == bar_text(tick as nat).take(i as int),
        decreases BAR_W - i,
    {
        let d: usize = if i >= head {
            i - head
        } else {
            head - i
        };
        if d <= 3 {
            push_char(&mut s, '█');
        } else {
            push_char(&mut s, '░');
        }
        i = i + 1;
        assert(s@ =~= bar_text(tick as nat).take(i as int));
    }
    assert(bar_text(tick as nat).take(34) =~= bar_text(tick as nat));
    s
}

fn shorten(path: &str) -> (r: String)
    requires
        path_cuttable(path@),
    ensures
        r@ == short_path(path@),
{
    let n = length(path);
    if n > 37 {
        let (k, _) = locate(path, n - 34);
        let total = path.unicode_len();
        let mut s = "...".to_owned();
        s.append(&tail_chars(path, total - k));
        assert(last_chars(path@, (total - k) as nat) =~= path@.skip(k as int));
        s
    } else {
        path.to_owned()
    }
}

fn in_box(s: &str) -> (r: String)
    ensures
        r@ == boxed(s@),
{
    let mut r = String::new();
    push_char(&mut r, '│');
    r.append(s);
    push_char(&mut r, '│');
    assert(r@ =~= boxed(s@));
    r
}

fn edge(left: char, right: char) -> (r: String)
    ensures
        r@ == seq![left] + repeated('─', 48) + seq![right],
{
    let mut r = String::new();
    push_char(&mut r, left);
    r.append(&repeat_char('─', 48));
    push_char(&mut r, right);
    assert(r@ =~= seq![left] + repeated('─', 48) + seq![right]);
    r
}

/// The box on a terminal of `cols` columns and `rows` rows, where it fits.
/// `path` is being scanned, `dirs` directories were read in `seconds` seconds.
pub fn splash_frame(
    cols: u16,
    rows: u16,
    path: &str,
    tick: u64,
    dirs: usize,
    seconds: u64,
    version: &str,
) -> (r: Option<Splash>)
    requires
        path_cuttable(path@),
        tick <= u64::MAX / 2,
    ensures
        r is Some <==> cols >= BOX_W + 2 && rows >= BOX_H + 2,
        r matches Some(s) ==> s.x == (cols - BOX_W) / 2 && s.y == (rows - BOX_H) / 2 && texts(
            s.lines@,
        ) == splash_lines(path@, tick as nat, dirs as nat, seconds as nat, version@),
{
    if cols < BOX_W + 2 || rows < BOX_H + 2 {
        return None;
    }
    let x: u16 = (cols - BOX_W) / 2;
    let y: u16 = (rows - BOX_H) / 2;
    let mut v = "v".to_owned();
    v.append(version);
    let mut scanning = " Scanning ".to_owned();
    scanning.append(&shorten(path));
    let mut progress = "│ ".to_owned();
    progress.append(&bar(tick));
    progress.append("  ");
    progress.append(&pad_start(&decimal(dirs as u64), 5));
    progress.append(" dirs │");
    let mut elapsed = decimal(seconds);
    elapsed.append("s elapsed");
    let mut lines: Vec<String> = Vec::new();
    lines.push(edge('╭', '╮'));
    lines.push(in_box(&repeat_char(' ', INNER_W)));
    lines.push(in_box(&center("d i s k v i s", INNER_W)));
    lines.push(in_box(&center(&v, INNER_W)));
    lines.push(in_box(&repeat_char(' ', INNER_W)));
    lines.push(in_box(&pad_end(&scanning, INNER_W)));
    lines.push(progress);
    lines.push(in_box(&center(&elapsed, INNER_W)));
    lines.push(edge('╰', '╯'));
    assert(texts(lines@) =~= splash_lines(
        path@,
        tick as nat,
        dirs as nat,
        seconds as nat,
        version@,
    ));
    Some(Splash { x, y, lines })
}

/// All lines of the box are as wide as the box, as long as the count of
/// directories has at most five digits and the seconds and the version fit.
pub proof fn splash_is_rectangular(
    path: Seq<char>,
    tick: nat,
    dirs: nat,
    seconds: nat,
    version: Seq<char>,
)
    requires
        path_cuttable(path),
        decimal_text(dirs).len() <= 5,
        decimal_text(seconds).len() <= 39,
        version.len() <= 47,
    ensures
        splash_lines(path, tick, dirs, seconds, version).len() == BOX_H,
        forall|i: int|
            0 <= i < BOX_H ==> (#[trigger] splash_lines(path, tick, dirs, seconds, version)[i]).len()
                == BOX_W,
{
    reveal_strlit("d i s k v i s");
    reveal_strlit("v");
    reveal_strlit(" Scanning ");
    reveal_strlit("...");
    reveal_strlit("│ ");
    reveal_strlit("  ");
    reveal_strlit(" dirs │");
    reveal_strlit("s elapsed");
    chars_take_bytes(path);
    if byte_len(path) > 37 {
        let n = (byte_len(path) - 34) as nat;
        char_index_is_greatest(path, n);
        let k = crate::bytes::char_index(path, n) as int;
        byte_len_adds(path.take(k), path.skip(k));
        assert(path.take(k) + path.skip(k) =~= path);
        chars_take_bytes(path.skip(k));
        assert(short_path(path).len() <= 37);
    }
    assert((" Scanning "@ + short_path(path)).len() <= 47);
}

/// The bright part of the progress bar never leaves the bar.
pub proof fn bar_head_stays_in_bar(tick: nat)
    ensures
        0 <= bar_head(tick) <= 34,
        bar_head(tick + 34) == bar_head(tick),
{
}

/// The bright part of the progress bar moves by two columns a tick: to the end and back
/// again.
pub proof fn the_bar_moves_two_columns(tick: nat)
    ensures
        bar_head(0) == 0,
        bar_head(tick + 1) == bar_head(tick) + 2 || bar_head(tick + 1) == bar_head(tick) - 2,
        tick % 34 < 17 <==> bar_head(tick + 1) == bar_head(tick) + 2,
{
    let t = tick as int;
    assert((2 * (t + 1)) % 68 == 2 * ((t + 1) % 34));
    assert((2 * t) % 68 == 2 * (t % 34));
}

/// The bright part of the progress bar is its head and three columns on either side.
pub proof fn the_bar_is_bright_at_its_head(tick: nat, i: int)
    requires
        0 <= i < BAR_W,
    ensures
        bar_text(tick).len() == BAR_W,
        bar_text(tick)[i] == '█' <==> bar_head(tick) - 3 <= i <= bar_head(tick) + 3,
        bar_text(tick)[i] == '█' || bar_text(tick)[i] == '░',
{
}

/// A long path is shown by its end, behind three dots.
pub proof fn long_paths_are_shown_by_their_end(path: Seq<char>)
    requires
        path_cuttable(path),
    ensures
        byte_len(path) <= 37 ==> short_path(path) == path,
        byte_len(path) > 37 ==> {
            let s = short_path(path);
            &&& s.take(3) == seq!['.', '.', '.']
            &&& byte_len(s.skip(3)) == 34
            &&& s.len() - 3 <= path.len()
            &&& s.skip(3) == path.skip(path.len() - (s.len() - 3))
        },
{
    if byte_len(path) > 37 {
        reveal_strlit("...");
        let n = (byte_len(path) - 34) as nat;
        char_index_is_greatest(path, n);
        let k = crate::bytes::char_index(path, n) as int;
        byte_len_adds(path.take(k), path.skip(k));
        assert(path.take(k) + path.skip(k) =~= path);
        let s = short_path(path);
        assert(s == "..."@ + path.skip(k));
        assert(s.take(3) =~= seq!['.', '.', '.']);
        assert(s.skip(3) =~= path.skip(k));
    }
}

/// The box says what is scanned, how many directories were read, and for how many seconds.
pub proof fn the_box_says_how_far_the_scan_is(
    path: Seq<char>,
    tick: nat,
    dirs: nat,
    seconds: nat,
    version: Seq<char>,
)
    ensures
        ({
            let lines = splash_lines(path, tick, dirs, seconds, version);
            let between = |l: Seq<char>| l.subrange(1, l.len() - 1);
            &&& lines.len() == 9
            &&& between(lines[3]) == centered("v"@ + version, 48)
            &&& between(lines[5]) == padded_end(" Scanning "@ + short_path(path), 48)
            &&& lines[6] == "│ "@ + bar_text(tick) + "  "@ + padded_start(decimal_text(dirs), 5)
                + " dirs │"@
            &&& between(lines[7]) == centered(decimal_text(seconds) + "s elapsed"@, 48)
        }),
{
    let lines = splash_lines(path, tick, dirs, seconds, version);
    let a = centered("v"@ + version, 48);
    let b = padded_end(" Scanning "@ + short_path(path), 48);
    let c = centered(decimal_text(seconds) + "s elapsed"@, 48);
    assert(boxed(a).subrange(1, boxed(a).len() - 1) =~= a);
    assert(boxed(b).subrange(1, boxed(b).len() - 1) =~= b);
    assert(boxed(c).subrange(1, boxed(c).len() - 1) =~= c);
}

} // verus!
