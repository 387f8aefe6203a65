//! What numbers, sizes and padded texts say to a reader.

use vstd::prelude::*;

use crate::binary64::{half_even, half_even_is_nearest, hundredths_text, tenths_text};
use crate::display::{human_text, sizes_are_rounded_once, GB, KB, MB, TB};
use crate::text::{
    centered, decimal_text, digit_char, number_text, padded_end, padded_start, repeated,
};

verus! {

/// Whether a bit of a number is set, counted from the lowest.
pub open spec fn bit_set(n: u32, i: u32) -> bool {
    (n >> i) & 1 == 1
}

/// Whether a text is made of digits of a base.
pub open spec fn has_digits(s: Seq<char>, base: nat) -> bool {
    forall|i: int| 0 <= i < s.len() ==> '0' <= #[trigger] s[i] && (s[i] as int) < 48 + base
}

/// The number that digits stand for.
pub open spec fn number_read(s: Seq<char>, base: nat) -> int
    decreases s.len(),
{
    if s.len() == 0 {
        0
    } else {
        number_read(s.drop_last(), base) * base + (s.last() as int - 48)
    }
}

proof fn lemma_digit(d: nat, base: nat)
    requires
        d < base <= 10,
    ensures
        digit_char(d) as int == 48 + d,
        '0' <= digit_char(d),
{
}

/// A number is written in the digits that stand for it, without zeros in front.
pub proof fn numbers_read_back(n: nat, base: nat)
    requires
        2 <= base <= 10,
    ensures
        ({
            let s = number_text(n, base);
            &&& s.len() > 0
            &&& has_digits(s, base)
            &&& number_read(s, base) == n
            &&& n > 0 ==> s[0] != '0'
            &&& n == 0 ==> s.len() == 1
        }),
    decreases n,
{
    let s = number_text(n, base);
    if n < base {
        lemma_digit(n, base);
        assert(s.drop_last() =~= Seq::<char>::empty());
        assert(s[0] == digit_char(n));
        reveal_with_fuel(number_read, 2);
        assert(0 * base == 0);
    } else {
        let (q, r) = (n / base, n % base);
        assert(q < n && q > 0 && r < base && q * base + r == n) by (nonlinear_arith)
            requires
                n >= base,
                base >= 2,
                q == n / base,
                r == n % base,
        ;
        numbers_read_back(q, base);
        lemma_digit(r, base);
        let t = number_text(q, base);
        assert(s == t.push(digit_char(r)));
        assert(s.drop_last() =~= t);
        assert(s[0] == t[0]);
        assert forall|i: int| 0 <= i < s.len() implies '0' <= #[trigger] s[i] && (s[i] as int) < 48
            + base by {
            if i < t.len() {
                assert(t[i] == s[i]);
            }
        }
    }
}

/// A number of tenths is written as its wholes, a point and one digit.
pub proof fn tenths_read_back(v: nat)
    ensures
        ({
            let s = tenths_text(v);
            let n = s.len() - 2;
            &&& n > 0
            &&& s[n] == '.'
            &&& has_digits(s.take(n), 10)
            &&& number_read(s.take(n), 10) * 10 + (s[n + 1] as int - 48) == v
        }),
{
    numbers_read_back(v / 10, 10);
    lemma_digit(v % 10, 10);
    let s = tenths_text(v);
    assert(s.take(s.len() - 2) =~= decimal_text(v / 10));
}

/// A number of hundredths is written as its wholes, a point and two digits.
pub proof fn hundredths_read_back(v: nat)
    ensures
        ({
            let s = hundredths_text(v);
            let n = s.len() - 3;
            &&& n > 0
            &&& s[n] == '.'
            &&& has_digits(s.take(n), 10)
            &&& number_read(s.take(n), 10) * 100 + (s[n + 1] as int - 48) * 10 + (s[n + 2] as int
                - 48) == v
        }),
{
    numbers_read_back(v / 100, 10);
    lemma_digit(v / 10 % 10, 10);
    lemma_digit(v % 10, 10);
    let s = hundredths_text(v);
    assert(s.take(s.len() - 3) =~= decimal_text(v / 100));
}

/// Whether a text says how many units a size is, to the nearest hundredth.
pub open spec fn says_units(s: Seq<char>, bytes: nat, unit: nat, suffix: Seq<char>) -> bool {
    let n = s.len() - suffix.len() - 3;
    let said = number_read(s.take(n), 10) * 100 + (s[n + 1] as int - 48) * 10 + (s[n + 2] as int
        - 48);
    &&& n > 0
    &&& s.skip(n + 3) == suffix
    &&& s[n] == '.'
    &&& has_digits(s.take(n), 10)
    &&& 2 * (said * unit - 100 * bytes) <= unit
    &&& 2 * (100 * bytes - said * unit) <= unit
}

proof fn lemma_says(bytes: nat, unit: nat, suffix: Seq<char>)
    requires
        unit > 0,
    ensures
        says_units(
            hundredths_text(half_even((bytes * 100) as nat, unit)) + suffix,
            bytes,
            unit,
            suffix,
        ),
{
    let v = half_even((bytes * 100) as nat, unit);
    half_even_is_nearest((bytes * 100) as nat, unit);
    hundredths_read_back(v);
    let h = hundredths_text(v);
    let s = h + suffix;
    let n = h.len() - 3;
    assert(s.take(n) =~= h.take(n));
    assert(s.skip(n + 3) =~= suffix);
    assert(s[n] == h[n] && s[n + 1] == h[n + 1] && s[n + 2] == h[n + 2]);
}

/// A size is said in the largest unit that it holds, to the nearest hundredth; less than
/// a kilobyte is said in bytes.
pub proof fn sizes_are_said_in_their_unit(bytes: u64)
    requires
        bytes < 0x20_0000_0000_0000,
    ensures
        ({
            let s = human_text(bytes);
            let n = bytes as nat;
            if bytes < 1024 {
                &&& s.len() > 2
                &&& s.skip(s.len() - 2) == seq![' ', 'B']
                &&& has_digits(s.take(s.len() - 2), 10)
                &&& number_read(s.take(s.len() - 2), 10) == bytes
            } else if bytes < 1024 * 1024 {
                says_units(s, n, 1024, seq![' ', 'K', 'B'])
            } else if bytes < 1024 * 1024 * 1024 {
                says_units(s, n, 1024 * 1024, seq![' ', 'M', 'B'])
            } else if bytes < 1024 * 1024 * 1024 * 1024 {
                says_units(s, n, 1024 * 1024 * 1024, seq![' ', 'G', 'B'])
            } else {
                says_units(s, n, 1024 * 1024 * 1024 * 1024, seq![' ', 'T', 'B'])
            }
        }),
{
    reveal_strlit(" B");
    reveal_strlit(" KB");
    reveal_strlit(" MB");
    reveal_strlit(" GB");
    reveal_strlit(" TB");
    assert(" B"@ =~= seq![' ', 'B']);
    assert(" KB"@ =~= seq![' ', 'K', 'B']);
    assert(" MB"@ =~= seq![' ', 'M', 'B']);
    assert(" GB"@ =~= seq![' ', 'G', 'B']);
    assert(" TB"@ =~= seq![' ', 'T', 'B']);
    let n = bytes as nat;
    if bytes < 1024 {
        numbers_read_back(n, 10);
        let s = human_text(bytes);
        assert(s.take(s.len() - 2) =~= decimal_text(n));
        assert(s.skip(s.len() - 2) =~= " B"@);
    } else {
        sizes_are_rounded_once(bytes);
        lemma_says(n, KB as nat, " KB"@);
        lemma_says(n, MB as nat, " MB"@);
        lemma_says(n, GB as nat, " GB"@);
        lemma_says(n, TB as nat, " TB"@);
    }
}

/// Whether `s` holds `t` from `at` on, and blanks elsewhere.
pub open spec fn holds_among_blanks(s: Seq<char>, t: Seq<char>, at: int) -> bool {
    &&& 0 <= at
    &&& at + t.len() <= s.len()
    &&& forall|i: int| 0 <= i < t.len() ==> s[at + i] == #[trigger] t[i]
    &&& forall|i: int| 0 <= i < s.len() && (i < at || i >= at + t.len()) ==> #[trigger] s[i] == ' '
}

/// A text that is brought to a width stands at its end, at its start or in its middle,
/// among blanks; one that is longer stays as it is.
pub proof fn padding_adds_blanks(s: Seq<char>, width: nat)
    ensures
        s.len() >= width ==> padded_start(s, width) == s && padded_end(s, width) == s && centered(
            s,
            width,
        ) == s,
        s.len() < width ==> {
            &&& padded_start(s, width).len() == width
            &&& padded_end(s, width).len() == width
            &&& centered(s, width).len() == width
            &&& holds_among_blanks(padded_start(s, width), s, width - s.len())
            &&& holds_among_blanks(padded_end(s, width), s, 0)
            &&& holds_among_blanks(centered(s, width), s, (width - s.len()) / 2)
        },
{
    if s.len() < width {
        let k = (width - s.len()) as nat;
        let (a, b, c) = (padded_start(s, width), padded_end(s, width), centered(s, width));
        assert(a == repeated(' ', k) + s);
        assert(b == s + repeated(' ', k));
        assert(c == repeated(' ', (k / 2) as nat) + s + repeated(' ', (k - k / 2) as nat));
    }
}

} // verus!
