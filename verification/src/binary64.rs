//! Correctly rounded binary64 arithmetic on nonnegative values, in integers.
//!
//! Sizes, shares and proportions are shown as decimal fractions and turned
//! into screen cells. They are computed as IEEE 754 doubles are: a value is a
//! mantissa of fifty-three bits times a power of two, and each operation
//! rounds its exact result to the nearest such value, ties to the even one.

use vstd::arithmetic::power2::*;
use vstd::prelude::*;

use crate::text::{decimal_text, digit_char, number, push_char};

verus! {

/// The smallest mantissa of a normalized value: two to the fifty-second.
pub const MANT_MIN: u64 = 0x10_0000_0000_0000;

/// A value `mant * 2^exp`. A nonzero mantissa lies between `2^52` and `2^53`,
/// both included.
pub struct Float {
    pub mant: nat,
    pub exp: int,
}

impl Float {
    pub open spec fn zero() -> Float {
        Float { mant: 0, exp: 0 }
    }

    pub open spec fn wf(self) -> bool {
        self.mant == 0 || MANT_MIN <= self.mant <= 2 * MANT_MIN
    }
}

/// `n / d` rounded to the nearest integer, ties to the even one.
pub open spec fn half_even(n: nat, d: nat) -> nat {
    let q = n / d;
    let r = n % d;
    if 2 * r < d || (2 * r == d && q % 2 == 0) {
        q
    } else {
        q + 1
    }
}

/// The number of binary digits of `n`.
pub open spec fn bit_len(n: nat) -> nat
    decreases n,
{
    if n == 0 {
        0
    } else {
        1 + bit_len(n / 2)
    }
}

/// The double nearest to the integer `a`.
pub open spec fn nearest_of(a: nat) -> Float {
    if a == 0 {
        Float::zero()
    } else if bit_len(a) <= 53 {
        Float { mant: a * pow2((53 - bit_len(a)) as nat), exp: bit_len(a) - 53 }
    } else {
        Float { mant: half_even(a, pow2((bit_len(a) - 53) as nat)), exp: bit_len(a) - 53 }
    }
}

/// The double nearest to `x / y`.
pub open spec fn quotient(x: Float, y: Float) -> Float {
    if x.mant == 0 {
        Float::zero()
    } else {
        let shift: nat = if x.mant >= y.mant { 52 } else { 53 };
        Float { mant: half_even(x.mant * pow2(shift), y.mant), exp: x.exp - y.exp - shift }
    }
}

/// The double nearest to `x * y`.
pub open spec fn product(x: Float, y: Float) -> Float {
    if x.mant == 0 || y.mant == 0 {
        Float::zero()
    } else {
        let p = x.mant * y.mant;
        let shift: nat = if p < pow2(105) { 52 } else { 53 };
        Float { mant: half_even(p, pow2(shift)), exp: x.exp + y.exp + shift }
    }
}

/// Whether `x < y`.
pub open spec fn less(x: Float, y: Float) -> bool {
    if x.exp <= y.exp {
        x.mant < y.mant * pow2((y.exp - x.exp) as nat)
    } else {
        x.mant * pow2((x.exp - y.exp) as nat) < y.mant
    }
}

/// `x * scale` rounded to the nearest integer, ties to the even one.
pub open spec fn scaled(x: Float, scale: nat) -> nat {
    if x.exp >= 0 {
        x.mant * scale * pow2(x.exp as nat)
    } else {
        half_even(x.mant * scale, pow2((-x.exp) as nat))
    }
}

/// `x` rounded to the nearest integer, ties upward.
pub open spec fn rounded(x: Float) -> nat {
    if x.exp >= 0 {
        x.mant * pow2(x.exp as nat)
    } else {
        (x.mant + pow2((-x.exp - 1) as nat)) / pow2((-x.exp) as nat)
    }
}

/// `part` as a percentage of `whole`.
pub open spec fn percent(part: nat, whole: nat) -> Float {
    product(quotient(nearest_of(part), nearest_of(whole)), nearest_of(100))
}

/// A count of tenths, written with one decimal.
pub open spec fn tenths_text(v: nat) -> Seq<char> {
    decimal_text(v / 10).push('.').push(digit_char(v % 10))
}

/// A count of hundredths, written with two decimals.
pub open spec fn hundredths_text(v: nat) -> Seq<char> {
    decimal_text(v / 100).push('.').push(digit_char(v / 10 % 10)).push(digit_char(v % 10))
}

/// The executable form of a value.
#[derive(Clone, Copy, Debug)]
pub struct Double {
    pub mant: u64,
    pub exp: i32,
}

impl View for Double {
    type V = Float;

    open spec fn view(&self) -> Float {
        Float { mant: self.mant as nat, exp: self.exp as int }
    }
}

proof fn lemma_bit_len(n: nat, k: nat)
    requires
        pow2(k) <= n < pow2(k + 1),
    ensures
        bit_len(n) == k + 1,
    decreases k,
{
    lemma_pow2_pos(k);
    if k == 0 {
        lemma2_to64();
        assert(bit_len(1) == 1 + bit_len(0));
    } else {
        lemma_pow2_unfold(k);
        lemma_pow2_unfold(k + 1);
        lemma_bit_len(n / 2, (k - 1) as nat);
    }
}

proof fn lemma_half_even_bounds(n: nat, d: nat, lo: nat, hi: nat)
    requires
        d > 0,
        lo * d <= n <= hi * d,
    ensures
        lo <= half_even(n, d) <= hi,
{
    let q = n / d;
    let r = n % d;
    assert(n == q * d + r && 0 <= r < d) by (nonlinear_arith)
        requires
            d > 0,
            q == n / d,
            r == n % d,
    ;
    assert(lo <= q) by (nonlinear_arith)
        requires
            lo * d <= n,
            n == q * d + r,
            0 <= r < d,
            d > 0,
    ;
    assert(q <= hi) by (nonlinear_arith)
        requires
            n <= hi * d,
            n == q * d + r,
            0 <= r < d,
            d > 0,
    ;
    if q == hi {
        assert(r == 0) by (nonlinear_arith)
            requires
                n <= hi * d,
                n == q * d + r,
                q == hi,
                0 <= r,
        ;
    }
}

/// Rounding to the nearest integer moves a quotient by half a unit at most,
/// and a tie goes to the even side.
pub proof fn half_even_is_nearest(n: nat, d: nat)
    requires
        d > 0,
    ensures
        2 * (half_even(n, d) * d - n) <= d,
        2 * (n - half_even(n, d) * d) <= d,
        2 * (half_even(n, d) * d - n) == d ==> half_even(n, d) % 2 == 0,
        2 * (n - half_even(n, d) * d) == d ==> half_even(n, d) % 2 == 0,
{
    let q = n / d;
    let r = n % d;
    assert(n == q * d + r && 0 <= r < d) by (nonlinear_arith)
        requires
            d > 0,
            q == n / d,
            r == n % d,
    ;
    assert((q + 1) * d == q * d + d) by (nonlinear_arith);
}

/// Integers below `2^53` are doubles: nothing is lost.
pub proof fn small_integers_are_exact(a: nat)
    requires
        0 < a < 2 * MANT_MIN,
    ensures
        nearest_of(a).exp <= 0,
        nearest_of(a).mant == a * pow2((-nearest_of(a).exp) as nat),
{
    lemma_pow2_126();
    lemma_bit_len_small(a, 53);
}

proof fn lemma_bit_len_small(a: nat, k: nat)
    requires
        a < pow2(k),
    ensures
        bit_len(a) <= k,
    decreases k,
{
    if a > 0 {
        if k == 0 {
            lemma2_to64();
        } else {
            lemma_pow2_unfold(k);
            lemma_bit_len_small(a / 2, (k - 1) as nat);
        }
    }
}

/// A common factor makes no difference to a rounded quotient.
proof fn lemma_half_even_factor(n: nat, d: nat, c: nat)
    requires
        d > 0,
        c > 0,
    ensures
        half_even(n * c, d * c) == half_even(n, d),
{
    let q = n / d;
    let r = n % d;
    assert(n == q * d + r && 0 <= r < d) by (nonlinear_arith)
        requires
            d > 0,
            q == n / d,
            r == n % d,
    ;
    assert(n * c == q * (d * c) + r * c && 0 <= r * c < d * c) by (nonlinear_arith)
        requires
            n == q * d + r,
            0 <= r < d,
            c > 0,
    ;
    vstd::arithmetic::div_mod::lemma_fundamental_div_mod_converse(
        (n * c) as int,
        (d * c) as int,
        q as int,
        (r * c) as int,
    );
    assert((2 * (r * c) < d * c) == (2 * r < d)) by (nonlinear_arith)
        requires
            c > 0,
    ;
    assert((2 * (r * c) == d * c) == (2 * r == d)) by (nonlinear_arith)
        requires
            c > 0,
    ;
}

/// The mantissa of a nonzero integer below `2^53` fills its fifty-three bits.
proof fn lemma_small_mantissa(a: nat)
    requires
        0 < a < pow2(53),
    ensures
        1 <= bit_len(a) <= 53,
        nearest_of(a).mant == a * pow2((53 - bit_len(a)) as nat),
        nearest_of(a).exp == bit_len(a) - 53,
        pow2(52) <= nearest_of(a).mant,
{
    lemma_bit_len_small(a, 53);
    let b = bit_len(a);
    lemma_bit_len_reached(a);
    lemma_pow2_adds((b - 1) as nat, (53 - b) as nat);
    let c = pow2((53 - b) as nat);
    lemma_pow2_pos((53 - b) as nat);
    assert(a * c >= pow2((b - 1) as nat) * c) by (nonlinear_arith)
        requires
            a >= pow2((b - 1) as nat),
    ;
}

proof fn lemma_some_mantissa(a: nat)
    requires
        a > 0,
    ensures
        nearest_of(a).mant > 0,
{
    let b = bit_len(a);
    lemma_bit_len_reached(a);
    if b <= 53 {
        let c = pow2((53 - b) as nat);
        lemma_pow2_pos((53 - b) as nat);
        assert(a * c > 0) by (nonlinear_arith)
            requires
                a > 0,
                c > 0,
        ;
    } else {
        let d = pow2((b - 53) as nat);
        lemma_pow2_pos((b - 53) as nat);
        lemma_pow2_pos(52);
        lemma_pow2_adds(52, (b - 53) as nat);
        assert(1 * d <= a) by (nonlinear_arith)
            requires
                a >= pow2(52) * d,
                pow2(52) >= 1,
        ;
        assert(a <= a * d) by (nonlinear_arith)
            requires
                d >= 1,
        ;
        lemma_half_even_bounds(a, d, 1, a);
    }
}

proof fn lemma_bit_len_reached(a: nat)
    requires
        a > 0,
    ensures
        bit_len(a) >= 1,
        a >= pow2((bit_len(a) - 1) as nat),
    decreases a,
{
    if a == 1 {
        lemma2_to64();
        assert(bit_len(1) == 1 + bit_len(0));
    } else {
        lemma_bit_len_reached(a / 2);
        lemma_pow2_unfold((bit_len(a) - 1) as nat);
    }
}

/// An integer below `2^53` divided by a power of two is not rounded, so that a
/// multiple of the quotient is rounded but once.
pub proof fn binary_fractions_are_exact(a: nat, k: nat, scale: nat)
    requires
        a < pow2(53),
        0 < k <= 52,
    ensures
        scaled(quotient(nearest_of(a), nearest_of(pow2(k))), scale) == half_even(
            a * scale,
            pow2(k),
        ),
{
    let y = nearest_of(pow2(k));
    lemma_pow2_pos(k);
    lemma_pow2_strictly_increases(k, k + 1);
    lemma_bit_len(pow2(k), k);
    lemma_pow2_adds(k, (52 - k) as nat);
    assert(y.mant == pow2(52) && y.exp == k - 52);
    lemma_pow2_pos(52);
    if a == 0 {
        let d = pow2(k);
        assert(0 * scale == 0) by (nonlinear_arith);
        assert(half_even(0, d) == 0) by {
            assert(0nat / d == 0 && 0nat % d == 0) by (nonlinear_arith)
                requires
                    d > 0,
            ;
        }
        lemma2_to64();
        let z = quotient(nearest_of(a), y);
        assert(z == Float::zero());
        assert(z.mant * scale * pow2(0) == 0) by (nonlinear_arith)
            requires
                z.mant == 0,
        ;
    } else {
        let x = nearest_of(a);
        let b = bit_len(a);
        lemma_small_mantissa(a);
        let m = x.mant;
        assert(half_even(m * pow2(52), 1 * pow2(52)) == half_even(m, 1)) by {
            lemma_half_even_factor(m, 1, pow2(52));
        }
        let z = quotient(x, y);
        assert(z.mant == m && z.exp == b - 53 - k);
        let c = pow2((53 - b) as nat);
        lemma_pow2_pos((53 - b) as nat);
        lemma_pow2_adds(k, (53 - b) as nat);
        assert(m * scale == (a * scale) * c) by (nonlinear_arith)
            requires
                m == a * c,
        ;
        lemma_half_even_factor(a * scale, pow2(k), c);
    }
}

/// The whole is a hundred percent of itself, and nothing is none.
pub proof fn percent_of_itself(a: nat)
    requires
        a > 0,
    ensures
        scaled(percent(a, a), 10) == 1000,
        scaled(percent(0, a), 10) == 0,
{
    let x = nearest_of(a);
    lemma_some_mantissa(a);
    lemma_pow2_126();
    lemma2_to64();
    lemma2_to64_rest();
    lemma_pow2_pos(52);
    let m = x.mant;
    assert(half_even(m * pow2(52), m) == pow2(52)) by {
        lemma_half_even_factor(pow2(52), 1, m);
        assert(m * pow2(52) == pow2(52) * m) by (nonlinear_arith);
        assert(1 * m == m);
    }
    let q = quotient(x, x);
    assert(q.mant == pow2(52) && q.exp == -52);
    let h = nearest_of(100);
    assert(bit_len(100) == 7) by {
        lemma_bit_len(100, 6);
    }
    assert(h.mant == 100 * pow2(46) && h.exp == -46);
    let p = pow2(52) * (100 * pow2(46));
    lemma_pow2_adds(52, 46);
    lemma_pow2_strictly_increases(98, 105);
    assert(p == 100 * pow2(98)) by (nonlinear_arith)
        requires
            p == pow2(52) * (100 * pow2(46)),
            pow2(98) == pow2(52) * pow2(46),
    ;
    lemma_pow2_adds(98, 7);
    assert(100 * pow2(98) < pow2(105)) by (nonlinear_arith)
        requires
            pow2(105) == pow2(98) * pow2(7),
            pow2(7) == 128,
            pow2(98) > 0,
    ;
    assert(half_even(p, pow2(52)) == 100 * pow2(46)) by {
        lemma_half_even_factor(100 * pow2(46), 1, pow2(52));
        assert((100 * pow2(46)) * pow2(52) == p) by (nonlinear_arith)
            requires
                p == pow2(52) * (100 * pow2(46)),
        ;
    }
    let r = percent(a, a);
    assert(r.mant == 100 * pow2(46) && r.exp == -46);
    assert(half_even(r.mant * 10, pow2(46)) == 1000) by {
        lemma_half_even_factor(1000, 1, pow2(46));
        assert(r.mant * 10 == 1000 * pow2(46));
    }
    assert(percent(0, a) == Float::zero());
}

/// `2^k`.
fn power_of_two(k: u32) -> (r: u128)
    requires
        k <= 126,
    ensures
        r == pow2(k as nat),
        0 < r <= 0x4000_0000_0000_0000_0000_0000_0000_0000,
{
    let mut r: u128 = 1;
    let mut i: u32 = 0;
    proof {
        lemma2_to64();
        lemma_pow2_126();
    }
    while i < k
        invariant
            i <= k <= 126,
            r == pow2(i as nat),
            0 < r <= pow2(126),
            pow2(126) == 0x4000_0000_0000_0000_0000_0000_0000_0000,
        decreases k - i,
    {
        proof {
            lemma_pow2_unfold((i + 1) as nat);
            if i + 1 < 126 {
                lemma_pow2_strictly_increases((i + 1) as nat, 126);
            }
        }
        r = r * 2;
        i = i + 1;
    }
    r
}

proof fn lemma_pow2_126()
    ensures
        pow2(126) == 0x4000_0000_0000_0000_0000_0000_0000_0000,
        pow2(105) == 0x200_0000_0000_0000_0000_0000_0000,
        pow2(52) == MANT_MIN,
        pow2(53) == 2 * MANT_MIN,
{
    lemma2_to64();
    lemma2_to64_rest();
    lemma_pow2_adds(63, 63);
    lemma_pow2_adds(52, 53);
    assert(pow2(126) == pow2(63) * pow2(63));
    assert(pow2(105) == pow2(52) * pow2(53));
    assert(0x8000_0000_0000_0000 * 0x8000_0000_0000_0000
        == 0x4000_0000_0000_0000_0000_0000_0000_0000) by (nonlinear_arith);
}

/// `n / d`, rounded half to even.
fn round_half_even(n: u128, d: u128) -> (r: u128)
    requires
        0 < d <= 0x4000_0000_0000_0000_0000_0000_0000_0000,
        n < 0x8000_0000_0000_0000_0000_0000_0000_0000,
    ensures
        r == half_even(n as nat, d as nat),
{
    let q: u128 = n / d;
    let rem: u128 = n % d;
    assert(rem < d) by (nonlinear_arith)
        requires
            rem == n % d,
            d > 0,
    ;
    assert(q <= n) by (nonlinear_arith)
        requires
            q == n / d,
            d > 0,
    ;
    if 2 * rem < d || (2 * rem == d && q % 2 == 0) {
        q
    } else {
        q + 1
    }
}

impl Double {
    /// The double nearest to `a`.
    pub fn of(a: u64) -> (r: Double)
        ensures
            r@ == nearest_of(a as nat),
            r@.wf(),
            a > 0 ==> r.mant > 0,
            -52 <= r.exp <= 11,
            a < 2 * MANT_MIN ==> r.exp <= 0,
    {
        proof {
            lemma_pow2_126();
            lemma2_to64();
            lemma2_to64_rest();
        }
        if a == 0 {
            return Double { mant: 0, exp: 0 };
        }
        if a < 2 * MANT_MIN {
            let mut m: u64 = a;
            let mut k: u32 = 0;
            while m < MANT_MIN
                invariant
                    0 < a < 2 * MANT_MIN,
                    0 < m < 2 * MANT_MIN,
                    k <= 52,
                    m == a * pow2(k as nat),
                    pow2(52) == MANT_MIN,
                decreases 53 - k,
            {
                proof {
                    if k == 52 {
                        assert(a * pow2(52) >= pow2(52)) by (nonlinear_arith)
                            requires
                                a > 0,
                        ;
                    }
                    lemma_pow2_unfold((k + 1) as nat);
                    assert(a * (2 * pow2(k as nat)) == 2 * (a * pow2(k as nat)))
                        by (nonlinear_arith);
                }
                m = m * 2;
                k = k + 1;
            }
            proof {
                // the digits of `a` and of `a * 2^k` differ by k
                lemma_shift_bits(a as nat, k as nat);
                lemma_bit_len(m as nat, 52);
            }
            Double { mant: m, exp: 0 - k as i32 }
        } else {
            let mut s: u32 = 1;
            let mut p: u64 = 2;
            while a / p >= 2 * MANT_MIN
                invariant
                    1 <= s <= 11,
                    p == pow2(s as nat),
                    2 * MANT_MIN <= a,
                    2 <= p <= 2048,
                    pow2(11) == 2048,
                    a / p >= MANT_MIN,
                decreases 2048 - p,
            {
                proof {
                    if s == 11 {
                        assert(a / 2048 < 2 * MANT_MIN);
                    } else {
                        lemma_pow2_unfold((s + 1) as nat);
                        if s + 1 < 11 {
                            lemma_pow2_strictly_increases((s + 1) as nat, 11);
                        }
                        assert(a / ((2 * p) as u64) >= MANT_MIN) by (nonlinear_arith)
                            requires
                                a / p >= 2 * MANT_MIN,
                                2 <= p <= 1024,
                        ;
                    }
                }
                p = p * 2;
                s = s + 1;
            }
            let m = round_half_even(a as u128, p as u128);
            proof {
                lemma_pow2_adds(52, s as nat);
                lemma_pow2_adds(53, s as nat);
                assert(MANT_MIN * p <= a < 2 * MANT_MIN * p) by (nonlinear_arith)
                    requires
                        MANT_MIN <= a / p < 2 * MANT_MIN,
                        p >= 2,
                ;
                lemma_bit_len(a as nat, (52 + s) as nat);
                lemma_half_even_bounds(
                    a as nat,
                    p as nat,
                    MANT_MIN as nat,
                    (2 * MANT_MIN) as nat,
                );
            }
            Double { mant: m as u64, exp: s as i32 }
        }
    }

    /// The double nearest to `self / other`.
    pub fn div(self, other: Double) -> (r: Double)
        requires
            self@.wf(),
            other@.wf(),
            other.mant > 0,
            -500 <= self.exp <= 500,
            -500 <= other.exp <= 500,
        ensures
            r@ == quotient(self@, other@),
            r@.wf(),
            self.mant > 0 ==> r.mant > 0,
            self.mant > 0 ==> self.exp - other.exp - 53 <= r.exp <= self.exp - other.exp - 52,
            self.mant == 0 ==> r.exp == 0,
    {
        proof {
            lemma_pow2_126();
        }
        if self.mant == 0 {
            return Double { mant: 0, exp: 0 };
        }
        let (shift, factor): (i32, u128) = if self.mant >= other.mant {
            (52i32, MANT_MIN as u128)
        } else {
            (53i32, 2 * MANT_MIN as u128)
        };
        proof {
            lemma_mant_product(self.mant as nat, factor as nat);
        }
        let n: u128 = self.mant as u128 * factor;
        let m = round_half_even(n, other.mant as u128);
        proof {
            let a = self.mant as nat;
            let b = other.mant as nat;
            let lo = MANT_MIN as nat;
            if shift == 52 {
                assert(lo * b <= a * lo) by (nonlinear_arith)
                    requires
                        a >= b,
                ;
                assert(a * lo <= (2 * lo) * b) by (nonlinear_arith)
                    requires
                        a <= 2 * lo,
                        b >= lo,
                ;
            } else {
                assert(lo * b <= a * (2 * lo)) by (nonlinear_arith)
                    requires
                        a >= lo,
                        b <= 2 * lo,
                ;
                assert(a * (2 * lo) <= (2 * lo) * b) by (nonlinear_arith)
                    requires
                        a <= b,
                ;
            }
            lemma_half_even_bounds(n as nat, b, lo, 2 * lo);
        }
        Double { mant: m as u64, exp: self.exp - other.exp - shift }
    }

    /// The double nearest to `self * other`.
    pub fn mul(self, other: Double) -> (r: Double)
        requires
            self@.wf(),
            other@.wf(),
            -500 <= self.exp <= 500,
            -500 <= other.exp <= 500,
        ensures
            r@ == product(self@, other@),
            r@.wf(),
            self.mant > 0 && other.mant > 0 ==> r.mant > 0,
            self.mant > 0 && other.mant > 0 ==> self.exp + other.exp + 52 <= r.exp <= self.exp
                + other.exp + 53,
            self.mant == 0 || other.mant == 0 ==> r.exp == 0,
    {
        proof {
            lemma_pow2_126();
        }
        if self.mant == 0 || other.mant == 0 {
            return Double { mant: 0, exp: 0 };
        }
        proof {
            let a = self.mant as nat;
            let b = other.mant as nat;
            let lo = MANT_MIN as nat;
            assert(lo * lo <= a * b <= (2 * lo) * (2 * lo)) by (nonlinear_arith)
                requires
                    lo <= a <= 2 * lo,
                    lo <= b <= 2 * lo,
            ;
        }
        proof {
            lemma_mant_product(self.mant as nat, other.mant as nat);
        }
        let p: u128 = self.mant as u128 * other.mant as u128;
        let (shift, d): (i32, u128) = if p < 0x200_0000_0000_0000_0000_0000_0000 {
            (52i32, MANT_MIN as u128)
        } else {
            (53i32, 2 * MANT_MIN as u128)
        };
        let m = round_half_even(p, d);
        proof {
            lemma_half_even_bounds(p as nat, d as nat, MANT_MIN as nat, (2 * MANT_MIN) as nat);
        }
        Double { mant: m as u64, exp: self.exp + other.exp + shift }
    }

    /// Whether `self < other`.
    pub fn lt(self, other: Double) -> (r: bool)
        requires
            self@.wf(),
            other@.wf(),
            -70 <= self.exp - other.exp <= 70,
        ensures
            r == less(self@, other@),
    {
        proof {
            lemma_pow2_126();
        }
        if self.exp <= other.exp {
            let k: u32 = (other.exp - self.exp) as u32;
            proof {
                lemma_shift_bound(other.mant as nat, k as nat);
            }
            let f = power_of_two(k);
            (self.mant as u128) < other.mant as u128 * f
        } else {
            let k: u32 = (self.exp - other.exp) as u32;
            proof {
                lemma_shift_bound(self.mant as nat, k as nat);
            }
            let f = power_of_two(k);
            self.mant as u128 * f < other.mant as u128
        }
    }

    /// `self * scale`, rounded half to even.
    pub fn scale(self, scale: u64) -> (r: u128)
        requires
            self@.wf(),
            scale <= 1000,
            -126 <= self.exp <= 64,
        ensures
            r == scaled(self@, scale as nat),
    {
        proof {
            lemma_pow2_126();
            assert(self.mant * scale <= 2 * MANT_MIN * 1000) by (nonlinear_arith)
                requires
                    self.mant <= 2 * MANT_MIN,
                    scale <= 1000,
            ;
        }
        let n: u128 = self.mant as u128 * scale as u128;
        if self.exp >= 0 {
            proof {
                lemma2_to64();
                lemma2_to64_rest();
                if self.exp < 64 {
                    lemma_pow2_strictly_increases(self.exp as nat, 64);
                }
                assert(n * pow2(self.exp as nat) <= 2 * MANT_MIN * 1000 * pow2(64))
                    by (nonlinear_arith)
                    requires
                        n <= 2 * MANT_MIN * 1000,
                        pow2(self.exp as nat) <= pow2(64),
                ;
            }
            n * power_of_two(self.exp as u32)
        } else {
            round_half_even(n, power_of_two((0 - self.exp) as u32))
        }
    }

    /// `self` rounded to the nearest integer, ties upward.
    pub fn round(self) -> (r: u128)
        requires
            self@.wf(),
            -126 <= self.exp <= 64,
        ensures
            r == rounded(self@),
    {
        proof {
            lemma_pow2_126();
            lemma2_to64();
            lemma2_to64_rest();
        }
        if self.exp >= 0 {
            proof {
                if self.exp < 64 {
                    lemma_pow2_strictly_increases(self.exp as nat, 64);
                }
                assert(self.mant * pow2(self.exp as nat) <= 2 * MANT_MIN * pow2(64))
                    by (nonlinear_arith)
                    requires
                        self.mant <= 2 * MANT_MIN,
                        pow2(self.exp as nat) <= pow2(64),
                ;
            }
            self.mant as u128 * power_of_two(self.exp as u32)
        } else {
            let k: u32 = (0 - self.exp) as u32;
            let half = power_of_two(k - 1);
            (self.mant as u128 + half) / power_of_two(k)
        }
    }
}

proof fn lemma_mant_product(a: nat, b: nat)
    requires
        a <= 2 * MANT_MIN,
        b <= 2 * MANT_MIN,
    ensures
        a * b <= 0x400_0000_0000_0000_0000_0000_0000,
{
    assert(a * b <= 0x20_0000_0000_0000 * 0x20_0000_0000_0000) by (nonlinear_arith)
        requires
            a <= 0x20_0000_0000_0000,
            b <= 0x20_0000_0000_0000,
    ;
}

proof fn lemma_shift_bits(a: nat, k: nat)
    requires
        a > 0,
    ensures
        bit_len(a * pow2(k)) == bit_len(a) + k,
    decreases k,
{
    lemma2_to64();
    if k == 0 {
        assert(a * 1 == a);
    } else {
        lemma_shift_bits(a, (k - 1) as nat);
        lemma_pow2_unfold(k);
        let b = a * pow2((k - 1) as nat);
        lemma_pow2_pos((k - 1) as nat);
        assert(b > 0) by (nonlinear_arith)
            requires
                b == a * pow2((k - 1) as nat),
                a > 0,
                pow2((k - 1) as nat) > 0,
        ;
        assert(a * pow2(k) == 2 * b) by (nonlinear_arith)
            requires
                pow2(k) == 2 * pow2((k - 1) as nat),
                b == a * pow2((k - 1) as nat),
        ;
        assert((2 * b) / 2 == b);
    }
}

proof fn lemma_shift_bound(m: nat, k: nat)
    requires
        m <= 2 * MANT_MIN,
        k <= 70,
    ensures
        m * pow2(k) <= 0x8000_0000_0000_0000_0000_0000_0000_0000,
{
    lemma_pow2_126();
    if k < 70 {
        lemma_pow2_strictly_increases(k, 70);
    }
    lemma_pow2_adds(53, 70);
    lemma_pow2_strictly_increases(123, 126);
    assert(m * pow2(k) <= pow2(53) * pow2(70)) by (nonlinear_arith)
        requires
            m <= pow2(53),
            pow2(k) <= pow2(70),
    ;
}

/// The smallest share that a split gives to a side: the double nearest to
/// five hundredths.
pub open spec fn smallest_share() -> Float {
    Float { mant: 0x1999999999999A, exp: -57 }
}

/// The largest share that a split gives to a side: the double nearest to
/// ninety-five hundredths.
pub open spec fn largest_share() -> Float {
    Float { mant: 0x1E666666666666, exp: -53 }
}

/// `part / whole`, kept between the smallest and the largest share.
pub open spec fn share(part: nat, whole: nat) -> Float {
    let f = quotient(nearest_of(part), nearest_of(whole));
    if less(f, smallest_share()) {
        smallest_share()
    } else if less(largest_share(), f) {
        largest_share()
    } else {
        f
    }
}

/// `extent * share(part, whole)`, rounded to a number of cells.
pub open spec fn share_cells(extent: nat, part: nat, whole: nat) -> nat {
    rounded(product(nearest_of(extent), share(part, whole)))
}

/// How many of `extent` cells the share of `part` in `whole` takes.
pub fn share_of_cells(extent: u16, part: u64, whole: u64) -> (r: u128)
    requires
        0 < part <= whole,
    ensures
        r == share_cells(extent as nat, part as nat, whole as nat),
{
    let f = Double::of(part).div(Double::of(whole));
    let lo = Double { mant: 0x1999999999999A, exp: -57 };
    let hi = Double { mant: 0x1E666666666666, exp: -53 };
    let g = if f.lt(lo) {
        lo
    } else if hi.lt(f) {
        hi
    } else {
        f
    };
    let w = Double::of(extent as u64).mul(g);
    w.round()
}

/// `part` as a percentage of `whole`, times ten to the `places`, rounded.
pub fn percent_scaled(part: u64, whole: u64, scale: u64) -> (r: u128)
    requires
        whole > 0,
        scale <= 1000,
    ensures
        r == scaled(percent(part as nat, whole as nat), scale as nat),
{
    let q = Double::of(part).div(Double::of(whole));
    let p = q.mul(Double::of(100));
    p.scale(scale)
}

/// A count of tenths with one decimal.
pub fn tenths(v: u128) -> (r: String)
    ensures
        r@ == tenths_text(v as nat),
{
    let mut s = number(v / 10, 10);
    push_char(&mut s, '.');
    push_char(&mut s, (48u8 + (v % 10) as u8) as char);
    s
}

/// A count of hundredths with two decimals.
pub fn hundredths(v: u128) -> (r: String)
    ensures
        r@ == hundredths_text(v as nat),
{
    let mut s = number(v / 100, 10);
    push_char(&mut s, '.');
    push_char(&mut s, (48u8 + (v / 10 % 10) as u8) as char);
    push_char(&mut s, (48u8 + (v % 10) as u8) as char);
    s
}

} // verus!
