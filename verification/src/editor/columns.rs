//! Positions in lines of text: display columns, character boundaries, words.

use vstd::prelude::*;
use vstd::string::StringSliceAdditionalSpecFns;
use vstd::utf8::encode_utf8;

use crate::bytes::{
    boundaries_are_ordered, byte_len, byte_len_adds, byte_len_is_encoded_length, byte_len_of_one,
    char_index, char_index_is_greatest, char_width, length, locate, on_boundary,
    prefix_ends_on_boundary, width,
};
use crate::text::{chars_of, texts};

verus! {

/// The column behind a character that stands in column `d`. Tab stops are four
/// columns apart.
pub open spec fn column_step(d: nat, c: char) -> nat {
    if c == '\t' {
        (d + 4 - d % 4) as nat
    } else {
        d + 1
    }
}

/// The column behind a text that starts in column `from`.
pub open spec fn column_after(from: nat, s: Seq<char>) -> nat
    decreases s.len(),
{
    if s.len() == 0 {
        from
    } else {
        column_step(column_after(from, s.drop_last()), s.last())
    }
}

/// The number of characters that start before the byte offset `n`.
pub open spec fn chars_started(s: Seq<char>, n: nat) -> nat
    decreases s.len(),
{
    if s.len() == 0 || n == 0 {
        0
    } else {
        1 + chars_started(
            s.skip(1),
            if width(s[0]) >= n {
                0
            } else {
                (n - width(s[0])) as nat
            },
        )
    }
}

/// A column as far as a machine number goes.
pub open spec fn capped(d: nat) -> nat {
    if d <= usize::MAX {
        d
    } else {
        usize::MAX as nat
    }
}

/// The display column of a byte offset in a line.
pub open spec fn column_of(line: Seq<char>, n: nat) -> nat {
    capped(column_after(0, line.take(chars_started(line, n) as int)))
}

/// The start of the character that ends at, or contains, the byte before `n`.
pub open spec fn previous_offset(s: Seq<char>, n: nat) -> nat {
    byte_len(s.take(chars_started(s, n) - 1))
}

/// The end of the character that starts at, or contains, the byte at `n`.
pub open spec fn next_offset(s: Seq<char>, n: nat) -> nat {
    byte_len(s.take(char_index(s, n) as int + 1))
}

/// Text only moves columns forward, at least one for each character.
pub proof fn columns_grow(from: nat, s: Seq<char>)
    ensures
        from + s.len() <= column_after(from, s) <= from + 4 * s.len(),
    decreases s.len(),
{
    if s.len() > 0 {
        columns_grow(from, s.drop_last());
    }
}

/// The column behind two texts.
pub proof fn columns_add(from: nat, a: Seq<char>, b: Seq<char>)
    ensures
        column_after(from, a + b) == column_after(column_after(from, a), b),
    decreases b.len(),
{
    if b.len() == 0 {
        assert(a + b =~= a);
    } else {
        columns_add(from, a, b.drop_last());
        assert((a + b).drop_last() =~= a + b.drop_last());
    }
}

pub proof fn lemma_started(s: Seq<char>, n: nat)
    ensures
        chars_started(s, n) <= s.len(),
        chars_started(s, n) > 0 ==> byte_len(s.take(chars_started(s, n) - 1)) < n,
        n > 0 && s.len() > 0 ==> chars_started(s, n) > 0,
        chars_started(s, n) < s.len() ==> byte_len(s.take(chars_started(s, n) as int)) >= n,
    decreases s.len(),
{
    if s.len() == 0 || n == 0 {
        assert(s.take(0) =~= Seq::<char>::empty());
    } else {
        let w = width(s[0]);
        let m = if w >= n {
            0
        } else {
            (n - w) as nat
        };
        lemma_started(s.skip(1), m);
        let k = chars_started(s, n) as int;
        assert(s.take(0) =~= Seq::<char>::empty());
        if k > 1 {
            assert(s.take(k - 1).skip(1) =~= s.skip(1).take(k - 2));
        }
        if k < s.len() {
            assert(s.take(k).skip(1) =~= s.skip(1).take(k - 1));
        }
    }
}

/// At a boundary the characters that start before it are those that end
/// before it.
pub proof fn started_at_boundary(s: Seq<char>, n: nat)
    requires
        on_boundary(s, n),
    ensures
        chars_started(s, n) == char_index(s, n),
{
    char_index_is_greatest(s, n);
    lemma_started(s, n);
    let k = chars_started(s, n) as int;
    let j = char_index(s, n) as int;
    if k < j {
        if k > 0 {
        }
        assert(byte_len(s.take(k)) >= n);
        boundaries_are_ordered(s, k, j);
    } else if j < k {
        assert(byte_len(s.take(k - 1)) < n);
        if j < k - 1 {
            boundaries_are_ordered(s, j, k - 1);
        }
    }
}

/// One character back from a boundary and one forward again is where it was.
pub proof fn next_undoes_previous(s: Seq<char>, n: nat)
    requires
        on_boundary(s, n),
        n > 0,
    ensures
        previous_offset(s, n) < n,
        on_boundary(s, previous_offset(s, n)),
        next_offset(s, previous_offset(s, n)) == n,
{
    started_at_boundary(s, n);
    char_index_is_greatest(s, n);
    let k = char_index(s, n) as int;
    if k == 0 {
        assert(s.take(0) =~= Seq::<char>::empty());
    }
    prefix_ends_on_boundary(s, k - 1);
    boundaries_are_ordered(s, k - 1, k);
}

/// One character forward from a boundary and one back again is where it was.
pub proof fn previous_undoes_next(s: Seq<char>, n: nat)
    requires
        on_boundary(s, n),
        n < byte_len(s),
    ensures
        next_offset(s, n) > n,
        on_boundary(s, next_offset(s, n)),
        previous_offset(s, next_offset(s, n)) == n,
{
    char_index_is_greatest(s, n);
    let k = char_index(s, n) as int;
    if k == s.len() {
        assert(s.take(k) =~= s);
    }
    prefix_ends_on_boundary(s, k + 1);
    boundaries_are_ordered(s, k, k + 1);
    started_at_boundary(s, next_offset(s, n));
}

/// The number of characters that start before the byte offset `n`.
pub fn started(s: &str, n: usize) -> (r: usize)
    ensures
        r == chars_started(s@, n as nat),
        r <= s@.len(),
{
    let chars = chars_of(s);
    let mut k: usize = 0;
    let mut left: usize = n;
    assert(s@.skip(0) =~= s@);
    while k < chars.len() && left > 0
        invariant
            k <= chars@.len(),
            chars@ == s@,
            chars_started(s@, n as nat) == k + chars_started(s@.skip(k as int), left as nat),
        decreases chars@.len() - k,
    {
        let w = char_width(chars[k]);
        assert(s@.skip(k as int).skip(1) =~= s@.skip(k + 1));
        if w >= left {
            left = 0;
        } else {
            left = left - w;
        }
        k = k + 1;
    }
    k
}

/// The display column of a byte offset in a line, tabs expanded.
pub fn display_col_of(line: &str, byte_col: usize) -> (r: usize)
    ensures
        r == column_of(line@, byte_col as nat),
{
    let chars = chars_of(line);
    let end = started(line, byte_col);
    let mut disp: u128 = 0;
    let mut i: usize = 0;
    assert(line@.take(0) =~= Seq::<char>::empty());
    while i < end
        invariant
            i <= end <= chars@.len(),
            chars@ == line@,
            disp == column_after(0, line@.take(i as int)),
            disp <= 4 * i,
        decreases end - i,
    {
        assert(line@.take(i + 1).drop_last() =~= line@.take(i as int));
        if chars[i] == '\t' {
            disp = disp + (4 - disp % 4);
        } else {
            disp = disp + 1;
        }
        i = i + 1;
    }
    if disp <= usize::MAX as u128 {
        disp as usize
    } else {
        usize::MAX
    }
}

/// The start of the character before the byte offset `n`.
pub fn previous(s: &str, n: usize) -> (r: usize)
    requires
        0 < n <= byte_len(s@),
    ensures
        r == previous_offset(s@, n as nat),
        r < n,
{
    let k = started(s, n);
    proof {
        if s@.len() == 0 {
            assert(byte_len(s@) == 0);
        }
        lemma_started(s@, n as nat);
    }
    offset_of(s, k - 1)
}

/// The end of the character at the byte offset `n`.
pub fn next(s: &str, n: usize) -> (r: usize)
    requires
        n < byte_len(s@),
    ensures
        r == next_offset(s@, n as nat),
        n < r <= byte_len(s@),
{
    let (k, _) = locate(s, n);
    let total: usize = s.unicode_len();
    proof {
        char_index_is_greatest(s@, n as nat);
        if k == s@.len() {
            assert(s@.take(k as int) =~= s@);
        }
        prefix_ends_on_boundary(s@, k + 1);
    }
    offset_of(s, k + 1)
}

/// The byte offset behind the first `k` characters.
pub fn offset_of(s: &str, k: usize) -> (r: usize)
    requires
        k <= s@.len(),
    ensures
        r == byte_len(s@.take(k as int)),
        r <= byte_len(s@),
{
    let whole = length(s);
    let chars = chars_of(s);
    let mut n: usize = 0;
    let mut i: usize = 0;
    assert(s@.take(0) =~= Seq::<char>::empty());
    while i < k
        invariant
            i <= k <= chars@.len(),
            chars@ == s@,
            whole == byte_len(s@),
            n == byte_len(s@.take(i as int)),
        decreases k - i,
    {
        proof {
            prefix_ends_on_boundary(s@, i + 1);
            let c = s@[i as int];
            assert(s@.take(i + 1) =~= s@.take(i as int) + seq![c]);
            byte_len_adds(s@.take(i as int), seq![c]);
            byte_len_of_one(c);
        }
        n = n + char_width(chars[i]);
        i = i + 1;
    }
    proof {
        prefix_ends_on_boundary(s@, k as int);
    }
    n
}

// ---------------------------------------------------------------------------
// Words
// ---------------------------------------------------------------------------

/// Whether a byte, read as a character, is blank.
pub open spec fn blank_byte(b: u8) -> bool {
    9 <= b <= 13 || b == 32 || b == 0x85 || b == 0xa0
}

/// The first byte from `c` on that is not blank.
pub open spec fn blanks_end(b: Seq<u8>, c: nat) -> nat
    decreases b.len() - c,
{
    if c < b.len() && blank_byte(b[c as int]) {
        blanks_end(b, c + 1)
    } else {
        c
    }
}

/// The first byte from `c` on that is blank.
pub open spec fn word_end(b: Seq<u8>, c: nat) -> nat
    decreases b.len() - c,
{
    if c < b.len() && !blank_byte(b[c as int]) {
        word_end(b, c + 1)
    } else {
        c
    }
}

/// The start of the blanks that end at `c`.
pub open spec fn blanks_start(b: Seq<u8>, c: nat) -> nat
    decreases c,
{
    if c > 0 && blank_byte(b[c - 1]) {
        blanks_start(b, (c - 1) as nat)
    } else {
        c
    }
}

/// The start of the word that ends at `c`.
pub open spec fn word_start(b: Seq<u8>, c: nat) -> nat
    decreases c,
{
    if c > 0 && !blank_byte(b[c - 1]) {
        word_start(b, (c - 1) as nat)
    } else {
        c
    }
}

/// The end of the next word from row `r` and byte `c` on, on this line or a
/// later one; the end of the text where there is none.
pub open spec fn word_forward(lines: Seq<Seq<char>>, r: nat, c: nat) -> (nat, nat)
    decreases lines.len() - r,
{
    let b = encode_utf8(lines[r as int]);
    let s = blanks_end(b, c);
    let e = word_end(b, s);
    if c < b.len() && e != s {
        (r, e)
    } else if r + 1 < lines.len() {
        word_forward(lines, r + 1, 0)
    } else {
        (r, s)
    }
}

/// The start of the word before row `r` and byte `c`, on this line or an
/// earlier one; the start of the text where there is none.
pub open spec fn word_backward(lines: Seq<Seq<char>>, r: nat, c: nat) -> (nat, nat)
    decreases r,
{
    let b = encode_utf8(lines[r as int]);
    let e = blanks_start(b, c);
    let s = word_start(b, e);
    if s != e {
        (r, s)
    } else if r == 0 {
        (0, 0)
    } else {
        word_backward(lines, (r - 1) as nat, byte_len(lines[r - 1]))
    }
}

proof fn lemma_forward_bounds(b: Seq<u8>, c: nat)
    requires
        c <= b.len(),
    ensures
        c <= blanks_end(b, c) <= b.len(),
        blanks_end(b, c) < b.len() ==> !blank_byte(b[blanks_end(b, c) as int]),
        c <= word_end(b, c) <= b.len(),
    decreases b.len() - c,
{
    if c < b.len() {
        lemma_forward_bounds(b, c + 1);
    }
}

proof fn lemma_backward_bounds(b: Seq<u8>, c: nat)
    ensures
        blanks_start(b, c) <= c,
        word_start(b, c) <= c,
        blanks_start(b, c) > 0 ==> !blank_byte(b[blanks_start(b, c) - 1]),
    decreases c,
{
    if c > 0 {
        lemma_backward_bounds(b, (c - 1) as nat);
    }
}

/// The next word lies in the text, and so does the one before.
pub proof fn words_lie_in_text(lines: Seq<Seq<char>>, r: nat, c: nat)
    requires
        r < lines.len(),
        c <= byte_len(lines[r as int]),
    ensures
        ({
            let p = word_forward(lines, r, c);
            p.0 < lines.len() && p.1 <= byte_len(lines[p.0 as int])
        }),
        ({
            let p = word_backward(lines, r, c);
            p.0 < lines.len() && p.1 <= byte_len(lines[p.0 as int])
        }),
{
    lemma_forward_in_text(lines, r, c);
    lemma_backward_in_text(lines, r, c);
}

proof fn lemma_forward_in_text(lines: Seq<Seq<char>>, r: nat, c: nat)
    requires
        r < lines.len(),
        c <= byte_len(lines[r as int]),
    ensures
        word_forward(lines, r, c).0 < lines.len(),
        word_forward(lines, r, c).1 <= byte_len(lines[word_forward(lines, r, c).0 as int]),
    decreases lines.len() - r,
{
    let b = encode_utf8(lines[r as int]);
    byte_len_is_encoded_length(lines[r as int]);
    lemma_forward_bounds(b, c);
    lemma_forward_bounds(b, blanks_end(b, c));
    if r + 1 < lines.len() {
        lemma_forward_in_text(lines, r + 1, 0);
    }
}

proof fn lemma_backward_in_text(lines: Seq<Seq<char>>, r: nat, c: nat)
    requires
        r < lines.len(),
        c <= byte_len(lines[r as int]),
    ensures
        word_backward(lines, r, c).0 < lines.len(),
        word_backward(lines, r, c).1 <= byte_len(lines[word_backward(lines, r, c).0 as int]),
    decreases r,
{
    let b = encode_utf8(lines[r as int]);
    lemma_backward_bounds(b, c);
    lemma_backward_bounds(b, blanks_start(b, c));
    if r > 0 {
        lemma_backward_in_text(lines, (r - 1) as nat, byte_len(lines[r - 1]));
    }
}

fn is_blank(b: u8) -> (r: bool)
    ensures
        r == blank_byte(b),
{
    (9 <= b && b <= 13) || b == 32 || b == 0x85 || b == 0xa0
}

/// The place of the next word.
pub fn next_word(lines: &Vec<String>, row: usize, col: usize) -> (r: (usize, usize))
    requires
        row < lines@.len(),
        col <= byte_len(lines@[row as int]@),
    ensures
        (r.0 as nat, r.1 as nat) == word_forward(texts(lines@), row as nat, col as nat),
        r.0 < lines@.len(),
        r.1 <= byte_len(lines@[r.0 as int]@),
    decreases lines@.len() - row,
{
    let bytes = lines[row].as_str().as_bytes();
    let ghost b = encode_utf8(texts(lines@)[row as int]);
    proof {
        byte_len_is_encoded_length(lines@[row as int]@);
        assert(bytes@ == b);
        lemma_forward_bounds(b, col as nat);
        lemma_forward_bounds(b, blanks_end(b, col as nat));
    }
    let n: usize = bytes.len();
    let mut s: usize = col;
    while s < n && is_blank(bytes[s])
        invariant
            col <= s <= n,
            n == b.len(),
            bytes@ == b,
            blanks_end(b, col as nat) == blanks_end(b, s as nat),
        decreases n - s,
    {
        s = s + 1;
    }
    let mut e: usize = s;
    while e < n && !is_blank(bytes[e])
        invariant
            s <= e <= n,
            n == b.len(),
            bytes@ == b,
            word_end(b, s as nat) == word_end(b, e as nat),
        decreases n - e,
    {
        e = e + 1;
    }
    if col < n && e != s {
        (row, e)
    } else if row < lines.len() - 1 {
        next_word(lines, row + 1, 0)
    } else {
        (row, s)
    }
}

/// The place of the word before.
pub fn previous_word(lines: &Vec<String>, row: usize, col: usize) -> (r: (usize, usize))
    requires
        row < lines@.len(),
        col <= byte_len(lines@[row as int]@),
    ensures
        (r.0 as nat, r.1 as nat) == word_backward(texts(lines@), row as nat, col as nat),
        r.0 < lines@.len(),
        r.1 <= byte_len(lines@[r.0 as int]@),
    decreases row,
{
    let bytes = lines[row].as_str().as_bytes();
    let ghost b = encode_utf8(texts(lines@)[row as int]);
    proof {
        byte_len_is_encoded_length(lines@[row as int]@);
        assert(bytes@ == b);
        lemma_backward_bounds(b, col as nat);
        lemma_backward_bounds(b, blanks_start(b, col as nat));
    }
    let mut e: usize = col;
    while e > 0 && is_blank(bytes[e - 1])
        invariant
            e <= col <= b.len(),
            bytes@ == b,
            blanks_start(b, col as nat) == blanks_start(b, e as nat),
        decreases e,
    {
        e = e - 1;
    }
    let mut s: usize = e;
    while s > 0 && !is_blank(bytes[s - 1])
        invariant
            s <= e <= b.len(),
            bytes@ == b,
            word_start(b, e as nat) == word_start(b, s as nat),
        decreases s,
    {
        s = s - 1;
    }
    if s != e {
        (row, s)
    } else if row == 0 {
        (0, 0)
    } else {
        let len = length(&lines[row - 1]);
        previous_word(lines, row - 1, len)
    }
}

} // verus!
