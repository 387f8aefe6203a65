//! Byte offsets in text: how many bytes characters take in UTF-8, and which
//! offsets fall between two characters.

use vstd::prelude::*;
use vstd::string::StringSliceAdditionalSpecFns;
use vstd::utf8::{encode_scalar, encode_utf8};

use crate::text::chars_of;

verus! {

/// The number of bytes of a character.
pub open spec fn width(c: char) -> nat {
    if c as u32 <= 0x7f {
        1
    } else if c as u32 <= 0x7ff {
        2
    } else if c as u32 <= 0xffff {
        3
    } else {
        4
    }
}

/// The number of bytes of a text.
pub open spec fn byte_len(s: Seq<char>) -> nat
    decreases s.len(),
{
    if s.len() == 0 {
        0
    } else {
        width(s[0]) + byte_len(s.skip(1))
    }
}

/// The number of characters that lie wholly within the first `n` bytes.
pub open spec fn char_index(s: Seq<char>, n: nat) -> nat
    decreases s.len(),
{
    if s.len() == 0 || width(s[0]) > n {
        0
    } else {
        1 + char_index(s.skip(1), (n - width(s[0])) as nat)
    }
}

/// Whether the offset `n` falls between two characters, or at an end.
pub open spec fn on_boundary(s: Seq<char>, n: nat) -> bool {
    byte_len(s.take(char_index(s, n) as int)) == n
}

/// The part of `s` before the offset `n`.
pub open spec fn before(s: Seq<char>, n: nat) -> Seq<char> {
    s.take(char_index(s, n) as int)
}

/// The part of `s` from the offset `n` on.
pub open spec fn after(s: Seq<char>, n: nat) -> Seq<char> {
    s.skip(char_index(s, n) as int)
}

/// The number of bytes is that of the encoding.
pub proof fn byte_len_is_encoded_length(s: Seq<char>)
    ensures
        byte_len(s) == encode_utf8(s).len(),
    decreases s.len(),
{
    if s.len() > 0 {
        byte_len_is_encoded_length(s.skip(1));
        assert(s.drop_first() =~= s.skip(1));
        vstd::utf8::char_is_scalar(s[0]);
        assert(encode_scalar(s[0] as u32).len() == width(s[0]));
    }
}

/// An offset counts the characters before it: their bytes do not exceed it,
/// and one more character would.
pub proof fn char_index_is_greatest(s: Seq<char>, n: nat)
    ensures
        char_index(s, n) <= s.len(),
        byte_len(s.take(char_index(s, n) as int)) <= n,
        char_index(s, n) < s.len() ==> byte_len(s.take(char_index(s, n) as int + 1)) > n,
    decreases s.len(),
{
    let k = char_index(s, n) as int;
    if s.len() == 0 || width(s[0]) > n {
        assert(s.take(0) =~= Seq::<char>::empty());
        if s.len() > 0 {
            assert(s.take(1).skip(1) =~= Seq::<char>::empty());
        }
    } else {
        let m = (n - width(s[0])) as nat;
        char_index_is_greatest(s.skip(1), m);
        assert(s.take(k).skip(1) =~= s.skip(1).take(k - 1));
        if k < s.len() {
            assert(s.take(k + 1).skip(1) =~= s.skip(1).take(k));
        }
    }
}

/// The bytes of two texts together.
pub proof fn byte_len_adds(a: Seq<char>, b: Seq<char>)
    ensures
        byte_len(a + b) == byte_len(a) + byte_len(b),
    decreases a.len(),
{
    if a.len() == 0 {
        assert(a + b =~= b);
    } else {
        byte_len_adds(a.skip(1), b);
        assert((a + b).skip(1) =~= a.skip(1) + b);
    }
}

/// The bytes of a text of one character.
pub proof fn byte_len_of_one(c: char)
    ensures
        byte_len(seq![c]) == width(c),
{
    assert(seq![c].skip(1) =~= Seq::<char>::empty());
    assert(byte_len(seq![c].skip(1)) == 0);
}

/// Every character takes a byte at least.
pub proof fn chars_take_bytes(s: Seq<char>)
    ensures
        s.len() <= byte_len(s) <= 4 * s.len(),
    decreases s.len(),
{
    if s.len() > 0 {
        chars_take_bytes(s.skip(1));
    }
}

/// The offset behind the first `k` characters is a boundary, and its
/// character index is `k`.
pub proof fn prefix_ends_on_boundary(s: Seq<char>, k: int)
    requires
        0 <= k <= s.len(),
    ensures
        char_index(s, byte_len(s.take(k))) == k,
        on_boundary(s, byte_len(s.take(k))),
        byte_len(s.take(k)) <= byte_len(s),
    decreases k,
{
    byte_len_adds(s.take(k), s.skip(k));
    assert(s.take(k) + s.skip(k) =~= s);
    if k == 0 {
        assert(s.take(0) =~= Seq::<char>::empty());
    } else {
        assert(s.take(k).skip(1) =~= s.skip(1).take(k - 1));
        prefix_ends_on_boundary(s.skip(1), k - 1);
    }
}

/// The ends of a text are boundaries.
pub proof fn ends_are_boundaries(s: Seq<char>)
    ensures
        on_boundary(s, 0),
        char_index(s, 0) == 0,
        on_boundary(s, byte_len(s)),
        char_index(s, byte_len(s)) == s.len(),
{
    prefix_ends_on_boundary(s, 0);
    prefix_ends_on_boundary(s, s.len() as int);
    assert(s.take(0) =~= Seq::<char>::empty());
    assert(s.take(s.len() as int) =~= s);
}

/// Two different offsets between characters have different characters before
/// them.
pub proof fn boundaries_are_ordered(s: Seq<char>, i: int, j: int)
    requires
        0 <= i < j <= s.len(),
    ensures
        byte_len(s.take(i)) < byte_len(s.take(j)),
{
    let m = s.subrange(i, j);
    assert(s.take(j) =~= s.take(i) + m);
    byte_len_adds(s.take(i), m);
    chars_take_bytes(m);
}

/// The number of bytes of a character.
pub fn char_width(c: char) -> (r: usize)
    ensures
        r == width(c),
{
    let u: u32 = c as u32;
    if u <= 0x7f {
        1
    } else if u <= 0x7ff {
        2
    } else if u <= 0xffff {
        3
    } else {
        4
    }
}

/// The number of bytes of a text.
pub fn length(s: &str) -> (r: usize)
    ensures
        r == byte_len(s@),
{
    proof {
        byte_len_is_encoded_length(s@);
    }
    s.as_bytes().len()
}

/// The number of characters within the first `n` bytes, and whether they end
/// there.
pub fn locate(s: &str, n: usize) -> (r: (usize, bool))
    ensures
        r.0 == char_index(s@, n as nat),
        r.1 == on_boundary(s@, n as nat),
        r.0 <= s@.len(),
{
    let chars = chars_of(s);
    let mut k: usize = 0;
    let mut left: usize = n;
    assert(s@.skip(0) =~= s@);
    assert(s@.take(0) =~= Seq::<char>::empty());
    while k < chars.len() && char_width(chars[k]) <= left
        invariant
            k <= chars@.len(),
            chars@ == s@,
            left <= n,
            byte_len(s@.take(k as int)) == n - left,
            char_index(s@, n as nat) == k + char_index(s@.skip(k as int), left as nat),
        decreases chars@.len() - k,
    {
        proof {
            let rest = s@.skip(k as int);
            assert(rest.skip(1) =~= s@.skip(k + 1));
            assert(s@.take(k + 1) =~= s@.take(k as int) + seq![s@[k as int]]);
            byte_len_adds(s@.take(k as int), seq![s@[k as int]]);
            byte_len_of_one(s@[k as int]);
        }
        left = left - char_width(chars[k]);
        k = k + 1;
    }
    (k, left == 0)
}

} // verus!
