//! How many cells a share of an extent takes.

use vstd::arithmetic::power2::*;
use vstd::prelude::*;

use crate::binary64::{
    bit_len, half_even, half_even_is_nearest, largest_share, less, nearest_of, percent, product,
    quotient, rounded, scaled, share, share_cells, smallest_share, Float,
};

verus! {

/// A value in units so small that every value at hand is a whole number of them.
spec fn units(x: Float) -> nat
    recommends
        x.exp >= -200,
{
    x.mant * pow2((x.exp + 200) as nat)
}

/// The number of those units in one.
spec fn one() -> nat {
    pow2(200)
}

/// A mantissa that is not zero fills its bits.
spec fn full(x: Float) -> bool {
    pow2(52) <= x.mant <= pow2(53)
}

proof fn lemma_below_bits(a: nat)
    ensures
        a < pow2(bit_len(a)),
        a > 0 ==> bit_len(a) >= 1 && a >= pow2((bit_len(a) - 1) as nat),
    decreases a,
{
    lemma2_to64();
    if a > 0 {
        lemma_below_bits(a / 2);
        lemma_pow2_unfold(bit_len(a));
        if a >= 2 {
            lemma_pow2_unfold((bit_len(a) - 1) as nat);
        }
    }
}

proof fn lemma_bits_at_most(a: nat, k: nat)
    requires
        a < pow2(k),
    ensures
        bit_len(a) <= k,
{
    lemma_below_bits(a);
    if bit_len(a) > k {
        let j = (bit_len(a) - 1) as nat;
        if k < j {
            lemma_pow2_strictly_increases(k, j);
        }
        lemma2_to64();
    }
}

proof fn lemma_half_even_grows(m: nat, n: nat, d: nat)
    requires
        d > 0,
        m <= n,
    ensures
        half_even(m, d) <= half_even(n, d),
{
    let (q, r) = (m / d, m % d);
    let (s, t) = (n / d, n % d);
    assert(q <= s) by (nonlinear_arith)
        requires
            d > 0,
            m <= n,
            q == m / d,
            s == n / d,
    ;
    if q == s {
        assert(r <= t) by (nonlinear_arith)
            requires
                d > 0,
                m <= n,
                q == m / d,
                s == n / d,
                q == s,
                r == m % d,
                t == n % d,
        ;
    }
}

proof fn lemma_half_even_between(n: nat, d: nat, lo: nat, hi: nat)
    requires
        d > 0,
        lo * d <= n <= hi * d,
    ensures
        lo <= half_even(n, d) <= hi,
{
    lemma_half_even_grows(lo * d, n, d);
    lemma_half_even_grows(n, hi * d, d);
    lemma_half_even_whole(lo, d);
    lemma_half_even_whole(hi, d);
}

proof fn lemma_half_even_whole(q: nat, d: nat)
    requires
        d > 0,
    ensures
        half_even(q * d, d) == q,
{
    vstd::arithmetic::div_mod::lemma_fundamental_div_mod_converse(
        (q * d) as int,
        d as int,
        q as int,
        0,
    );
}

proof fn lemma_powers()
    ensures
        pow2(52) == 0x10_0000_0000_0000,
        pow2(53) == 0x20_0000_0000_0000,
        pow2(50) == 0x4_0000_0000_0000,
        pow2(1) == 2,
        pow2(0) == 1,
        one() > 0,
{
    lemma2_to64();
    lemma2_to64_rest();
    lemma_pow2_pos(200);
}

/// The double nearest to a size differs from it by a small part of it.
proof fn lemma_nearest(a: nat)
    requires
        0 < a <= u64::MAX,
    ensures
        ({
            let x = nearest_of(a);
            &&& full(x)
            &&& -52 <= x.exp <= 11
            &&& x.exp == bit_len(a) - 53
            &&& pow2(53) * units(x) <= (pow2(53) + 1) * (a * one())
            &&& pow2(53) * units(x) >= (pow2(53) - 1) * (a * one())
            &&& bit_len(a) <= 53 ==> units(x) == a * one() && x.mant < pow2(53)
        }),
{
    lemma_powers();
    lemma_below_bits(a);
    lemma2_to64_rest();
    lemma_bits_at_most(a, 64);
    let b = bit_len(a);
    let x = nearest_of(a);
    let t = one();
    if b <= 53 {
        let c = pow2((53 - b) as nat);
        lemma_pow2_adds((b - 1) as nat, (53 - b) as nat);
        lemma_pow2_adds(b, (53 - b) as nat);
        lemma_pow2_pos((53 - b) as nat);
        assert(pow2((b - 1) as nat) * c <= a * c < pow2(b) * c) by (nonlinear_arith)
            requires
                pow2((b - 1) as nat) <= a < pow2(b),
                c > 0,
        ;
        lemma_pow2_adds((53 - b) as nat, (b + 147) as nat);
        assert((a * c) * pow2((b + 147) as nat) == a * t) by (nonlinear_arith)
            requires
                t == c * pow2((b + 147) as nat),
        ;
        assert(units(x) == a * t);
        let y = a * t;
        assert(pow2(53) * y <= (pow2(53) + 1) * y) by (nonlinear_arith);
        assert(pow2(53) * y >= (pow2(53) - 1) * y) by (nonlinear_arith);
    } else {
        let d = pow2((b - 53) as nat);
        lemma_pow2_pos((b - 53) as nat);
        lemma_pow2_adds(52, (b - 53) as nat);
        lemma_pow2_adds(53, (b - 53) as nat);
        lemma_half_even_between(a, d, pow2(52), pow2(53));
        half_even_is_nearest(a, d);
        lemma_pow2_adds((b - 53) as nat, 200);
        let m = x.mant;
        assert(units(x) == m * (d * t));
        assert(m * (d * t) == (m * d) * t) by (nonlinear_arith);
        let md = m * d;
        lemma_near_part(a, md, d, t);
    }
}

proof fn lemma_near_part(a: nat, md: nat, d: nat, t: nat)
    requires
        2 * (md - a) <= d,
        2 * (a - md) <= d,
        pow2(52) * d <= a,
    ensures
        pow2(53) * (md * t) <= (pow2(53) + 1) * (a * t),
        pow2(53) * (md * t) >= (pow2(53) - 1) * (a * t),
{
    lemma_powers();
    let (l, h) = (pow2(52), pow2(53));
    assert(h * md <= (h + 1) * a && h * md >= (h - 1) * a) by (nonlinear_arith)
        requires
            2 * (md - a) <= d,
            2 * (a - md) <= d,
            l * d <= a,
            h == 2 * l,
            l > 0,
    ;
    assert(pow2(53) * (md * t) == (pow2(53) * md) * t) by (nonlinear_arith);
    assert((pow2(53) + 1) * (a * t) == ((pow2(53) + 1) * a) * t) by (nonlinear_arith);
    assert((pow2(53) - 1) * (a * t) == ((pow2(53) - 1) * a) * t) by (nonlinear_arith);
    let (p, q, r) = (pow2(53) * md, (pow2(53) + 1) * a, (pow2(53) - 1) * a);
    assert(p * t <= q * t && p * t >= r * t) by (nonlinear_arith)
        requires
            p <= q,
            p >= r,
            t >= 0,
    ;
}

/// What is rounded to a full mantissa differs by a small part.
proof fn lemma_rounded_part(n: nat, d: nat)
    requires
        d > 0,
        half_even(n, d) >= pow2(52),
    ensures
        (pow2(53) - 1) * (half_even(n, d) * d) <= pow2(53) * n,
        pow2(53) * n <= (pow2(53) + 1) * (half_even(n, d) * d),
{
    lemma_powers();
    half_even_is_nearest(n, d);
    let m = half_even(n, d);
    assert(m * d >= pow2(52) * d) by (nonlinear_arith)
        requires
            m >= pow2(52),
            d > 0,
    ;
    let (l, h, md) = (pow2(52), pow2(53), m * d);
    assert((h - 1) * md <= h * n && h * n <= (h + 1) * md) by (nonlinear_arith)
        requires
            2 * (md - n) <= d,
            2 * (n - md) <= d,
            l * d <= md,
            h == 2 * l,
            l > 0,
    ;
}

proof fn lemma_times(p: int, q: int, e: nat)
    requires
        p <= q,
    ensures
        p * e <= q * e,
{
    assert(p * e <= q * e) by (nonlinear_arith)
        requires
            p <= q,
            e >= 0,
    ;
}

/// The double nearest to a quotient differs from it by a small part of it.
proof fn lemma_quotient(x: Float, y: Float)
    requires
        full(x),
        full(y),
        -60 <= x.exp <= 20,
        -60 <= y.exp <= 20,
    ensures
        ({
            let q = quotient(x, y);
            &&& full(q)
            &&& x.exp - y.exp - 53 <= q.exp <= x.exp - y.exp - 52
            &&& (pow2(53) - 1) * (units(q) * units(y)) <= pow2(53) * (units(x) * one())
            &&& pow2(53) * (units(x) * one()) <= (pow2(53) + 1) * (units(q) * units(y))
        }),
{
    lemma_powers();
    let s: nat = if x.mant >= y.mant {
        52
    } else {
        53
    };
    let n = x.mant * pow2(s);
    let d = y.mant;
    let q = quotient(x, y);
    let m = half_even(n, d);
    let lo = pow2(52);
    let hi = pow2(53);
    let xm = x.mant;
    if s == 52 {
        assert(lo * d <= xm * lo && xm * lo <= hi * d) by (nonlinear_arith)
            requires
                xm >= d,
                xm <= hi,
                d >= lo,
                hi == 2 * lo,
        ;
    } else {
        assert(lo * d <= xm * hi && xm * hi <= hi * d) by (nonlinear_arith)
            requires
                xm < d,
                xm >= lo,
                d <= hi,
                hi == 2 * lo,
        ;
    }
    lemma_half_even_between(n, d, lo, hi);
    lemma_rounded_part(n, d);
    let i = (q.exp + 200) as nat;
    let j = (y.exp + 200) as nat;
    lemma_pow2_adds(i, j);
    let e = pow2(i + j);
    let (pi, pj) = (pow2(i), pow2(j));
    assert((m * pi) * (d * pj) == (m * d) * (pi * pj)) by (nonlinear_arith);
    assert(units(q) * units(y) == (m * d) * e);
    let k = (x.exp + 200) as nat;
    lemma_pow2_adds(k, 200);
    lemma_pow2_adds(s, i + j);
    assert(s + (i + j) == k + 200);
    let (pk, ps, t) = (pow2(k), pow2(s), one());
    assert((xm * pk) * t == (xm * ps) * e) by (nonlinear_arith)
        requires
            pk * t == ps * e,
    ;
    assert(units(x) * t == n * e);
    let md = m * d;
    lemma_times((hi - 1) * md, (hi * n) as int, e);
    lemma_times((hi * n) as int, ((hi + 1) * md) as int, e);
    assert(((hi - 1) * md) * e == (hi - 1) * (md * e)) by (nonlinear_arith);
    assert((hi * n) * e == hi * (n * e)) by (nonlinear_arith);
    assert(((hi + 1) * md) * e == (hi + 1) * (md * e)) by (nonlinear_arith);
}

/// The double nearest to a product differs from it by a small part of it.
proof fn lemma_product(x: Float, y: Float)
    requires
        full(x),
        full(y),
        -60 <= x.exp <= 20,
        -130 <= y.exp <= 20,
    ensures
        ({
            let p = product(x, y);
            &&& full(p)
            &&& x.exp + y.exp + 52 <= p.exp <= x.exp + y.exp + 53
            &&& (pow2(53) - 1) * (units(p) * one()) <= pow2(53) * (units(x) * units(y))
            &&& pow2(53) * (units(x) * units(y)) <= (pow2(53) + 1) * (units(p) * one())
        }),
{
    lemma_powers();
    lemma_pow2_adds(52, 53);
    let n = x.mant * y.mant;
    let s: nat = if n < pow2(105) {
        52
    } else {
        53
    };
    let d = pow2(s);
    let p = product(x, y);
    let m = half_even(n, d);
    let lo = pow2(52);
    let hi = pow2(53);
    let (xm, ym) = (x.mant, y.mant);
    assert(lo * lo <= xm * ym && xm * ym <= hi * hi) by (nonlinear_arith)
        requires
            lo <= xm <= hi,
            lo <= ym <= hi,
    ;
    assert(hi * lo == lo * hi) by (nonlinear_arith);
    assert(pow2(105) == lo * hi);
    lemma_half_even_between(n, d, lo, hi);
    lemma_rounded_part(n, d);
    let i = (p.exp + 200) as nat;
    let j = (x.exp + 200) as nat;
    let k = (y.exp + 200) as nat;
    lemma_pow2_adds(i, 200);
    lemma_pow2_adds(j, k);
    lemma_pow2_adds(s, j + k);
    assert(i + 200 == s + (j + k));
    let e = pow2(j + k);
    let (pi, pj, pk, t) = (pow2(i), pow2(j), pow2(k), one());
    assert((m * pi) * t == (m * d) * e) by (nonlinear_arith)
        requires
            pi * t == d * e,
    ;
    assert(units(p) * t == (m * d) * e);
    assert((xm * pj) * (ym * pk) == (xm * ym) * (pj * pk)) by (nonlinear_arith);
    assert(units(x) * units(y) == n * e);
    let md = m * d;
    lemma_times((hi - 1) * md, (hi * n) as int, e);
    lemma_times((hi * n) as int, ((hi + 1) * md) as int, e);
    assert(((hi - 1) * md) * e == (hi - 1) * (md * e)) by (nonlinear_arith);
    assert((hi * n) * e == hi * (n * e)) by (nonlinear_arith);
    assert(((hi + 1) * md) * e == (hi + 1) * (md * e)) by (nonlinear_arith);
}

/// A value is rounded to a whole number that is at most half away, upward where two are
/// as near.
proof fn lemma_round(p: Float)
    requires
        -200 <= p.exp < 0,
    ensures
        2 * (rounded(p) * one()) <= 2 * units(p) + one(),
        2 * (rounded(p) * one()) > 2 * units(p) - one(),
{
    let k = (-p.exp) as nat;
    let h = pow2((k - 1) as nat);
    let w = pow2(k);
    lemma_pow2_unfold(k);
    lemma_pow2_pos(k);
    let m = p.mant;
    let n = rounded(p);
    assert(n * w <= m + h && m + h < n * w + w) by (nonlinear_arith)
        requires
            n == (m + h) / w,
            w > 0,
    ;
    let e = pow2((200 - k) as nat);
    lemma_pow2_pos((200 - k) as nat);
    lemma_pow2_adds(k, (200 - k) as nat);
    assert((p.exp + 200) as nat == (200 - k) as nat);
    assert(units(p) == m * e);
    assert(n * (w * e) == (n * w) * e) by (nonlinear_arith);
    let nw = n * w;
    assert(2 * (nw * e) <= 2 * (m * e) + w * e && 2 * (nw * e) > 2 * (m * e) - w * e)
        by (nonlinear_arith)
        requires
            2 * nw <= 2 * m + w,
            2 * nw > 2 * m - w,
            e > 0,
    ;
}

proof fn lemma_less(x: Float, y: Float)
    requires
        x.exp >= -200,
        y.exp >= -200,
    ensures
        less(x, y) <==> units(x) < units(y),
{
    let (a, b) = (x.mant, y.mant);
    if x.exp <= y.exp {
        let i = (x.exp + 200) as nat;
        let j = (y.exp - x.exp) as nat;
        lemma_pow2_adds(i, j);
        lemma_pow2_pos(i);
        let (pi, pj) = (pow2(i), pow2(j));
        assert(b * (pi * pj) == (b * pj) * pi) by (nonlinear_arith);
        assert((a < b * pj) == (a * pi < (b * pj) * pi)) by (nonlinear_arith)
            requires
                pi > 0,
        ;
    } else {
        let i = (y.exp + 200) as nat;
        let j = (x.exp - y.exp) as nat;
        lemma_pow2_adds(i, j);
        lemma_pow2_pos(i);
        let (pi, pj) = (pow2(i), pow2(j));
        assert(a * (pi * pj) == (a * pj) * pi) by (nonlinear_arith);
        assert((a * pj < b) == ((a * pj) * pi < b * pi)) by (nonlinear_arith)
            requires
                pi > 0,
        ;
    }
}

/// The bounds of a share are five and ninety-five hundredths, nearly.
proof fn lemma_bounds()
    ensures
        full(smallest_share()),
        full(largest_share()),
        pow2(50) * (20 * units(smallest_share())) <= (pow2(50) + 1) * one(),
        pow2(50) * (20 * units(smallest_share())) >= (pow2(50) - 1) * one(),
        pow2(50) * (20 * units(largest_share())) <= (19 * pow2(50) + 1) * one(),
        pow2(50) * (20 * units(largest_share())) >= (19 * pow2(50) - 1) * one(),
{
    lemma_powers();
    lemma2_to64_rest();
    lemma_pow2_adds(57, 143);
    lemma_pow2_adds(53, 147);
    let (a, b) = (pow2(143), pow2(147));
    let (lo, hi) = (smallest_share(), largest_share());
    assert(pow2(57) == 0x200_0000_0000_0000);
    assert(one() == 0x200_0000_0000_0000 * a);
    assert(one() == 0x20_0000_0000_0000 * b);
    assert(units(lo) == 0x1999999999999A * a);
    assert(units(hi) == 0x1E666666666666 * b);
    let (k, t) = (pow2(50), one());
    assert(k * (20 * (0x1999999999999A * a)) <= (k + 1) * t && k * (20 * (0x1999999999999A * a))
        >= (k - 1) * t) by (nonlinear_arith)
        requires
            k == 0x4_0000_0000_0000,
            t == 0x200_0000_0000_0000 * a,
            a >= 0,
    ;
    assert(k * (20 * (0x1E666666666666 * b)) <= (19 * k + 1) * t && k * (20 * (
    0x1E666666666666 * b)) >= (19 * k - 1) * t) by (nonlinear_arith)
        requires
            k == 0x4_0000_0000_0000,
            t == 0x20_0000_0000_0000 * b,
            b >= 0,
    ;
}

/// From the errors of two sizes and of their quotient, that of the quotient.
proof fn lemma_ratio(p: nat, w: nat, t: nat, a: nat, b: nat, f: nat)
    requires
        t > 0,
        (pow2(53) - 1) * (p * t) <= pow2(53) * a <= (pow2(53) + 1) * (p * t),
        (pow2(53) - 1) * (w * t) <= pow2(53) * b <= (pow2(53) + 1) * (w * t),
        (pow2(53) - 1) * (f * b) <= pow2(53) * (a * t),
        pow2(53) * (a * t) <= (pow2(53) + 1) * (f * b),
    ensures
        pow2(50) * (f * w) <= (pow2(50) + 1) * (p * t),
        pow2(50) * (f * w) >= (pow2(50) - 1) * (p * t),
{
    lemma_powers();
    let d = pow2(53) as int;
    let (pt, wt, fb, at) = ((p * t) as int, (w * t) as int, (f * b) as int, (a * t) as int);
    let fw = (f * w) as int;
    let ptt = pt * t;
    let fwt = fw * t;
    // upward
    assert((d - 1) * fwt <= d * fb) by (nonlinear_arith)
        requires
            (d - 1) * wt <= d * b,
            wt == w * t,
            fwt == (f * w) * t,
            fb == f * b,
            f >= 0,
    ;
    assert(d * at <= (d + 1) * ptt) by (nonlinear_arith)
        requires
            d * a <= (d + 1) * pt,
            at == a * t,
            ptt == pt * t,
            t > 0,
    ;
    assert((d - 1) * ((d - 1) * fwt) <= d * ((d + 1) * ptt)) by {
        assert((d - 1) * ((d - 1) * fwt) <= (d - 1) * (d * fb)) by (nonlinear_arith)
            requires
                (d - 1) * fwt <= d * fb,
                d > 1,
        ;
        assert((d - 1) * (d * fb) == d * ((d - 1) * fb)) by (nonlinear_arith);
        assert(d * ((d - 1) * fb) <= d * (d * at)) by (nonlinear_arith)
            requires
                (d - 1) * fb <= d * at,
                d > 1,
        ;
        assert(d * (d * at) <= d * ((d + 1) * ptt)) by (nonlinear_arith)
            requires
                d * at <= (d + 1) * ptt,
                d > 1,
        ;
    }
    assert(ptt >= 0) by (nonlinear_arith)
        requires
            ptt == pt * t,
            pt >= 0,
            t > 0,
    ;
    let k = pow2(50) as int;
    assert(k * fwt <= (k + 1) * ptt) by (nonlinear_arith)
        requires
            d == 0x20_0000_0000_0000,
            k == 0x4_0000_0000_0000,
            (d - 1) * ((d - 1) * fwt) <= d * ((d + 1) * ptt),
            ptt >= 0,
    ;
    // downward
    assert((d + 1) * fwt >= d * fb) by (nonlinear_arith)
        requires
            (d + 1) * wt >= d * b,
            wt == w * t,
            fwt == (f * w) * t,
            fb == f * b,
            f >= 0,
    ;
    assert(d * at >= (d - 1) * ptt) by (nonlinear_arith)
        requires
            d * a >= (d - 1) * pt,
            at == a * t,
            ptt == pt * t,
            t > 0,
    ;
    assert((d + 1) * ((d + 1) * fwt) >= d * ((d - 1) * ptt)) by {
        assert((d + 1) * ((d + 1) * fwt) >= (d + 1) * (d * fb)) by (nonlinear_arith)
            requires
                (d + 1) * fwt >= d * fb,
                d > 1,
        ;
        assert((d + 1) * (d * fb) == d * ((d + 1) * fb)) by (nonlinear_arith);
        assert(d * ((d + 1) * fb) >= d * (d * at)) by (nonlinear_arith)
            requires
                (d + 1) * fb >= d * at,
                d > 1,
        ;
        assert(d * (d * at) >= d * ((d - 1) * ptt)) by (nonlinear_arith)
            requires
                d * at >= (d - 1) * ptt,
                d > 1,
        ;
    }
    assert(k * fwt >= (k - 1) * ptt) by (nonlinear_arith)
        requires
            d == 0x20_0000_0000_0000,
            k == 0x4_0000_0000_0000,
            (d + 1) * ((d + 1) * fwt) >= d * ((d - 1) * ptt),
            ptt >= 0,
    ;
    assert(k * fw <= (k + 1) * pt && k * fw >= (k - 1) * pt) by (nonlinear_arith)
        requires
            k * fwt <= (k + 1) * ptt,
            k * fwt >= (k - 1) * ptt,
            fwt == fw * t,
            ptt == pt * t,
            t > 0,
    ;
}

/// The share of a part in a whole, held between one and nineteen twentieths, as a
/// fraction.
pub open spec fn held_share(part: nat, whole: nat) -> (nat, nat) {
    if 20 * part < whole {
        (1, 20)
    } else if 20 * part > 19 * whole {
        (19, 20)
    } else {
        (part, whole)
    }
}

/// From the errors of a quotient and of the bounds, that of the share.
proof fn lemma_held(p: nat, w: nat, t: nat, f: nat, lo: nat, hi: nat, k: nat)
    requires
        0 < p <= w,
        t > 0,
        k == 0x4_0000_0000_0000,
        (k - 1) * (p * t) <= k * (f * w) <= (k + 1) * (p * t),
        (k - 1) * t <= k * (20 * lo) <= (k + 1) * t,
        (19 * k - 1) * t <= k * (20 * hi) <= (19 * k + 1) * t,
    ensures
        ({
            let g = if f < lo {
                lo
            } else if hi < f {
                hi
            } else {
                f
            };
            let (n, m) = held_share(p, w);
            (k - 1) * (n * t) <= k * (g * m) <= (k + 1) * (n * t)
        }),
{
    let g = if f < lo {
        lo
    } else if hi < f {
        hi
    } else {
        f
    };
    let (n, m) = held_share(p, w);
    let (pt, wt) = (p * t, w * t);
    let fw = f * w;
    // how the part and the whole compare
    if 20 * p < w {
        assert(20 * pt < wt) by (nonlinear_arith)
            requires
                20 * p < w,
                pt == p * t,
                wt == w * t,
                t > 0,
        ;
        assert(k * (20 * f) <= (k + 1) * t) by (nonlinear_arith)
            requires
                k * fw <= (k + 1) * pt,
                20 * pt < wt,
                fw == f * w,
                wt == w * t,
                w > 0,
                k > 0,
        ;
        if f < lo {
        } else if hi < f {
            assert(false) by (nonlinear_arith)
                requires
                    k * (20 * f) <= (k + 1) * t,
                    (19 * k - 1) * t <= k * (20 * hi),
                    hi < f,
                    t > 0,
                    k == 0x4_0000_0000_0000,
            ;
        } else {
            assert((k - 1) * t <= k * (20 * f)) by (nonlinear_arith)
                requires
                    (k - 1) * t <= k * (20 * lo),
                    lo <= f,
                    k > 0,
            ;
        }
        assert(g * 20 == 20 * g);
        assert(1 * t == t);
    } else if 20 * p > 19 * w {
        assert(20 * pt > 19 * wt) by (nonlinear_arith)
            requires
                20 * p > 19 * w,
                pt == p * t,
                wt == w * t,
                t > 0,
        ;
        assert(k * (20 * f) >= (k - 1) * (19 * t)) by (nonlinear_arith)
            requires
                k * fw >= (k - 1) * pt,
                20 * pt > 19 * wt,
                fw == f * w,
                wt == w * t,
                w > 0,
                k > 1,
        ;
        if f < lo {
            assert(false) by (nonlinear_arith)
                requires
                    k * (20 * f) >= (k - 1) * (19 * t),
                    k * (20 * lo) <= (k + 1) * t,
                    f < lo,
                    t > 0,
                    k == 0x4_0000_0000_0000,
            ;
        } else if hi < f {
            assert(k * (20 * hi) <= (k + 1) * (19 * t) && k * (20 * hi) >= (k - 1) * (19 * t))
                by (nonlinear_arith)
                requires
                    (19 * k - 1) * t <= k * (20 * hi) <= (19 * k + 1) * t,
                    t > 0,
            ;
        } else {
            assert(k * (20 * f) <= (k + 1) * (19 * t)) by (nonlinear_arith)
                requires
                    k * (20 * hi) <= (19 * k + 1) * t,
                    f <= hi,
                    t > 0,
                    k > 0,
            ;
        }
        assert(g * 20 == 20 * g);
    } else {
        assert(wt <= 20 * pt && 20 * pt <= 19 * wt) by (nonlinear_arith)
            requires
                w <= 20 * p,
                20 * p <= 19 * w,
                pt == p * t,
                wt == w * t,
                t > 0,
        ;
        if f < lo {
            let gw = lo * w;
            assert(k * gw <= (k + 1) * pt) by (nonlinear_arith)
                requires
                    k * (20 * lo) <= (k + 1) * t,
                    gw == lo * w,
                    wt == w * t,
                    wt <= 20 * pt,
                    k > 0,
                    w > 0,
            ;
            assert(k * gw >= (k - 1) * pt) by (nonlinear_arith)
                requires
                    k * fw >= (k - 1) * pt,
                    fw == f * w,
                    gw == lo * w,
                    f < lo,
                    k > 0,
                    w > 0,
            ;
        } else if hi < f {
            let gw = hi * w;
            assert(k * gw <= (k + 1) * pt) by (nonlinear_arith)
                requires
                    k * fw <= (k + 1) * pt,
                    fw == f * w,
                    gw == hi * w,
                    hi < f,
                    k > 0,
                    w > 0,
            ;
            assert(k * (20 * gw) >= (19 * k - 1) * wt) by (nonlinear_arith)
                requires
                    k * (20 * hi) >= (19 * k - 1) * t,
                    gw == hi * w,
                    wt == w * t,
                    w > 0,
            ;
            assert(k * gw >= (k - 1) * pt) by (nonlinear_arith)
                requires
                    k * (20 * gw) >= (19 * k - 1) * wt,
                    20 * pt <= 19 * wt,
                    wt >= 0,
                    k > 1,
            ;
        }
    }
}

/// The share as a value: near to the fraction that it stands for.
proof fn lemma_share(part: nat, whole: nat)
    requires
        0 < part <= whole <= u64::MAX,
    ensures
        ({
            let g = share(part, whole);
            let (n, m) = held_share(part, whole);
            &&& full(g)
            &&& -130 <= g.exp <= 20
            &&& (pow2(50) - 1) * (n * one()) <= pow2(50) * (units(g) * m)
            &&& pow2(50) * (units(g) * m) <= (pow2(50) + 1) * (n * one())
            &&& units(g) <= units(largest_share()) || units(g) == units(smallest_share())
        }),
{
    lemma_powers();
    lemma_bounds();
    lemma_nearest(part);
    lemma_nearest(whole);
    let (x, y) = (nearest_of(part), nearest_of(whole));
    lemma_quotient(x, y);
    let f = quotient(x, y);
    lemma_ratio(part, whole, one(), units(x), units(y), units(f));
    lemma_held(
        part,
        whole,
        one(),
        units(f),
        units(smallest_share()),
        units(largest_share()),
        pow2(50),
    );
    lemma_less(f, smallest_share());
    lemma_less(largest_share(), f);
}

/// From the errors of the share, of its product with the extent and of the rounding, that
/// of the number of cells.
proof fn lemma_cells(e: nat, n: nat, m: nat, t: nat, g: nat, p: nat, c: nat, k: nat, d: nat)
    requires
        e <= 65535,
        0 < n <= m,
        t > 0,
        k == 0x4_0000_0000_0000,
        d == 0x20_0000_0000_0000,
        (k - 1) * (n * t) <= k * (g * m) <= (k + 1) * (n * t),
        (d - 1) * (p * t) <= d * ((e * t) * g) <= (d + 1) * (p * t),
        2 * (c * t) <= 2 * p + t,
        2 * (c * t) >= 2 * p - t,
    ensures
        1000 * (c * m) <= 1000 * (e * n) + 501 * m,
        1000 * (c * m) >= 1000 * (e * n) - 501 * m,
{
    let eg = e * g;
    assert((d - 1) * p <= d * eg && d * eg <= (d + 1) * p) by (nonlinear_arith)
        requires
            (d - 1) * (p * t) <= d * ((e * t) * g) <= (d + 1) * (p * t),
            eg == e * g,
            t > 0,
    ;
    let (nt, gm, mt) = (n * t, g * m, m * t);
    let ent = e * nt;
    let egm = eg * m;
    assert((k - 1) * ent <= k * egm && k * egm <= (k + 1) * ent) by (nonlinear_arith)
        requires
            (k - 1) * nt <= k * gm <= (k + 1) * nt,
            ent == e * nt,
            egm == eg * m,
            eg == e * g,
            gm == g * m,
            e >= 0,
    ;
    let pm = p * m;
    assert((d - 1) * pm <= d * egm && d * egm <= (d + 1) * pm) by (nonlinear_arith)
        requires
            (d - 1) * p <= d * eg,
            d * eg <= (d + 1) * p,
            pm == p * m,
            egm == eg * m,
            m > 0,
    ;
    assert(ent <= 65535 * mt) by (nonlinear_arith)
        requires
            ent == e * nt,
            nt == n * t,
            mt == m * t,
            e <= 65535,
            n <= m,
            t > 0,
    ;
    let cmt = (c * m) * t;
    assert(2 * cmt <= 2 * pm + mt && 2 * cmt >= 2 * pm - mt) by (nonlinear_arith)
        requires
            2 * (c * t) <= 2 * p + t,
            2 * (c * t) >= 2 * p - t,
            cmt == (c * m) * t,
            pm == p * m,
            mt == m * t,
            m > 0,
    ;
    assert(1000 * cmt <= 1000 * ent + 501 * mt && 1000 * cmt >= 1000 * ent - 501 * mt) by {
        lemma_sum(ent as int, egm as int, pm as int, cmt as int, mt as int);
    }
    let (cm, en) = (c * m, e * n);
    assert(1000 * cm <= 1000 * en + 501 * m && 1000 * cm >= 1000 * en - 501 * m)
        by (nonlinear_arith)
        requires
            1000 * cmt <= 1000 * ent + 501 * mt,
            1000 * cmt >= 1000 * ent - 501 * mt,
            cmt == cm * t,
            ent == e * nt,
            nt == n * t,
            en == e * n,
            mt == m * t,
            t > 0,
    ;
}

proof fn lemma_sum(ent: int, egm: int, pm: int, cmt: int, mt: int)
    requires
        0 <= ent <= 65535 * mt,
        0x3_ffff_ffff_ffff * ent <= 0x4_0000_0000_0000 * egm <= 0x4_0000_0000_0001 * ent,
        0x1f_ffff_ffff_ffff * pm <= 0x20_0000_0000_0000 * egm <= 0x20_0000_0000_0001 * pm,
        2 * cmt <= 2 * pm + mt,
        2 * cmt >= 2 * pm - mt,
    ensures
        1000 * cmt <= 1000 * ent + 501 * mt,
        1000 * cmt >= 1000 * ent - 501 * mt,
{
}

/// The number of cells that a share of an extent takes is the nearest to it: it differs by
/// no more than half a cell, but for a thousandth.
pub proof fn shares_take_the_nearest_number_of_cells(extent: nat, part: nat, whole: nat)
    requires
        0 < extent <= 65535,
        0 < part <= whole <= u64::MAX,
    ensures
        ({
            let c = share_cells(extent, part, whole);
            let (n, m) = held_share(part, whole);
            &&& 1000 * (c * m) <= 1000 * (extent * n) + 501 * m
            &&& 1000 * (c * m) >= 1000 * (extent * n) - 501 * m
        }),
{
    lemma_powers();
    lemma_share(part, whole);
    lemma_nearest(extent);
    lemma2_to64_rest();
    lemma2_to64();
    lemma_bits_at_most(extent, 16);
    let g = share(part, whole);
    let x = nearest_of(extent);
    lemma_product(x, g);
    let p = product(x, g);
    lemma_exponent(g);
    lemma_round(p);
    let (n, m) = held_share(part, whole);
    lemma_cells(
        extent,
        n,
        m,
        one(),
        units(g),
        units(p),
        rounded(p),
        pow2(50),
        pow2(53),
    );
}

/// A share is less than one.
proof fn lemma_exponent(g: Float)
    requires
        full(g),
        -130 <= g.exp <= 20,
        units(g) <= units(largest_share()) || units(g) == units(smallest_share()),
    ensures
        g.exp <= -53,
        units(g) < one(),
{
    lemma_powers();
    lemma_bounds();
    lemma2_to64_rest();
    lemma_pow2_adds(53, 147);
    lemma_pow2_adds(57, 143);
    lemma_pow2_pos(147);
    lemma_pow2_pos(143);
    let (a, b) = (pow2(143), pow2(147));
    assert(units(smallest_share()) == 0x1999999999999A * a);
    assert(units(largest_share()) == 0x1E666666666666 * b);
    assert(one() == 0x20_0000_0000_0000 * b);
    assert(one() == 0x200_0000_0000_0000 * a);
    if g.exp > -53 {
        let i = (g.exp + 200) as nat;
        if i > 148 {
            lemma_pow2_strictly_increases(148, i);
        }
        lemma_pow2_adds(52, 148);
        let m = g.mant;
        assert(m * pow2(i) >= pow2(52) * pow2(148)) by (nonlinear_arith)
            requires
                m >= pow2(52),
                pow2(i) >= pow2(148),
        ;
    }
}

/// Twice the double nearest to a part is not less than the one nearest to a whole that is
/// not more than twice the part.
proof fn lemma_half_nearest(part: nat, whole: nat)
    requires
        0 < part <= whole <= u64::MAX,
        whole <= 2 * part,
    ensures
        2 * units(nearest_of(part)) >= units(nearest_of(whole)),
{
    lemma_powers();
    lemma_nearest(part);
    lemma_nearest(whole);
    lemma_below_bits(part);
    lemma_below_bits(whole);
    let (bp, bw) = (bit_len(part), bit_len(whole));
    if bp > bw {
        if bw < bp - 1 {
            lemma_pow2_strictly_increases(bw, (bp - 1) as nat);
        }
        assert(false);
    }
    if bp + 1 < bw {
        lemma_pow2_unfold((bp + 1) as nat);
        if bp + 1 < bw - 1 {
            lemma_pow2_strictly_increases((bp + 1) as nat, (bw - 1) as nat);
        }
        assert(false);
    }
    let (x, y) = (nearest_of(part), nearest_of(whole));
    let t = one();
    if bw <= 53 {
        assert(2 * (part * t) >= whole * t) by (nonlinear_arith)
            requires
                whole <= 2 * part,
        ;
    } else {
        let i = (bw + 147) as nat;
        let e = pow2(i);
        assert(units(y) == y.mant * e);
        if bp == bw {
            assert(units(x) == x.mant * e);
            assert(2 * (x.mant * e) >= y.mant * e) by (nonlinear_arith)
                requires
                    x.mant >= pow2(52),
                    y.mant <= pow2(53),
                    pow2(53) == 2 * pow2(52),
            ;
        } else {
            lemma_pow2_unfold(i);
            let h = pow2((i - 1) as nat);
            assert(units(x) == x.mant * h);
            let d = pow2((bw - 53) as nat);
            lemma_pow2_pos((bw - 53) as nat);
            lemma_half_even_grows(whole, 2 * part, d);
            lemma_pow2_unfold((bw - 53) as nat);
            if bp == 53 {
                assert(d == 2);
                lemma_half_even_whole(part, 2);
                assert(half_even(2 * part, d) == part);
                assert(part * pow2(0) == part) by (nonlinear_arith)
                    requires
                        pow2(0) == 1,
                ;
            } else {
                let c = pow2((bw - 54) as nat);
                lemma_pow2_pos((bw - 54) as nat);
                assert(d == 2 * c);
                lemma_double(part, c);
            }
            assert(x.mant >= y.mant);
            assert(2 * (x.mant * h) >= y.mant * e) by (nonlinear_arith)
                requires
                    x.mant >= y.mant,
                    e == 2 * h,
            ;
        }
    }
}

proof fn lemma_double(n: nat, c: nat)
    requires
        c > 0,
    ensures
        half_even(2 * n, 2 * c) == half_even(n, c),
{
    let (q, r) = (n / c, n % c);
    assert(2 * n == q * (2 * c) + 2 * r && 0 <= 2 * r < 2 * c) by (nonlinear_arith)
        requires
            q == n / c,
            r == n % c,
            c > 0,
    ;
    vstd::arithmetic::div_mod::lemma_fundamental_div_mod_converse(
        (2 * n) as int,
        (2 * c) as int,
        q as int,
        (2 * r) as int,
    );
}

/// A quotient of at least one half is not rounded below it.
proof fn lemma_half_quotient(x: Float, y: Float)
    requires
        full(x),
        full(y),
        -60 <= x.exp <= 20,
        -60 <= y.exp <= 20,
        2 * units(x) >= units(y),
    ensures
        2 * units(quotient(x, y)) >= one(),
{
    lemma_powers();
    lemma_quotient(x, y);
    let q = quotient(x, y);
    let i = (x.exp + 200) as nat;
    let j = (y.exp + 200) as nat;
    lemma_pow2_pos(i);
    let (a, b) = (x.mant, y.mant);
    let (pi, pj) = (pow2(i), pow2(j));
    let lo = pow2(52);
    let dx = x.exp - y.exp;
    lemma_pow2_adds(52, 147);
    lemma_pow2_unfold(200);
    if dx >= 0 || (dx == -1 && a >= b) {
        let k = (q.exp + 200) as nat;
        assert(k >= 147);
        if k > 147 {
            lemma_pow2_strictly_increases(147, k);
        }
        let m = q.mant;
        assert(m * pow2(k) >= lo * pow2(147)) by (nonlinear_arith)
            requires
                m >= lo,
                pow2(k) >= pow2(147),
        ;
    } else {
        // the second exponent is the greater one
        let n = (-dx) as nat;
        lemma_pow2_adds(i, n);
        let pn = pow2(n);
        assert(pj == pi * pn);
        assert(2 * a >= b * pn) by (nonlinear_arith)
            requires
                2 * (a * pi) >= b * pj,
                pj == pi * pn,
                pi > 0,
        ;
        if n == 1 {
            assert(b * 2 == 2 * b);
            assert(false);
        } else {
            lemma_pow2_unfold(2);
            if n > 2 {
                lemma_pow2_strictly_increases(2, n);
            }
            assert(n == 2 && b == lo && a == 2 * lo) by {
                assert(pn >= 4);
                assert(b * pn >= lo * 4) by (nonlinear_arith)
                    requires
                        b >= lo,
                        pn >= 4,
                ;
                if n > 2 {
                    lemma_pow2_unfold(3);
                    if n > 3 {
                        lemma_pow2_strictly_increases(3, n);
                    }
                    assert(b * pn >= lo * 8) by (nonlinear_arith)
                        requires
                            b >= lo,
                            pn >= 8,
                    ;
                }
                if n == 2 {
                    assert(b * pn == 4 * b) by (nonlinear_arith)
                        requires
                            pn == 4,
                    ;
                }
            }
            assert((2 * lo) * lo == (2 * lo) * b);
            lemma_half_even_whole(2 * lo, lo);
            assert(q.mant == 2 * lo);
            assert(q.exp == -54);
            assert((2 * lo) * pow2(146) == lo * pow2(147)) by {
                lemma_pow2_unfold(147);
                assert((2 * lo) * pow2(146) == lo * (2 * pow2(146))) by (nonlinear_arith);
            }
        }
    }
}

/// A share of at least one half of an extent is not rounded below it.
proof fn lemma_half_product(e: nat, g: Float)
    requires
        0 < e <= 65535,
        full(g),
        -130 <= g.exp <= 20,
        2 * units(g) >= one(),
        units(g) < one(),
    ensures
        2 * units(product(nearest_of(e), g)) >= e * one(),
{
    lemma_powers();
    lemma_nearest(e);
    lemma2_to64();
    lemma2_to64_rest();
    lemma_bits_at_most(e, 16);
    let x = nearest_of(e);
    lemma_product(x, g);
    let p = product(x, g);
    let (lo, hi) = (pow2(52), pow2(53));
    let (a, b) = (x.mant, g.mant);
    let n = a * b;
    let i = (g.exp + 200) as nat;
    lemma_pow2_adds(52, 148);
    lemma_pow2_adds(53, 147);
    lemma_pow2_adds(53, 146);
    lemma_pow2_unfold(200);
    lemma_pow2_unfold(148);
    lemma_pow2_unfold(147);
    // the exponent of a value from one half up to one
    if i > 147 {
        if i > 148 {
            lemma_pow2_strictly_increases(148, i);
        }
        assert(b * pow2(i) >= lo * pow2(148)) by (nonlinear_arith)
            requires
                b >= lo,
                pow2(i) >= pow2(148),
        ;
        assert(false);
    }
    if i < 146 {
        lemma_pow2_strictly_increases(i, 146);
        assert(b * pow2(i) < hi * pow2(146)) by (nonlinear_arith)
            requires
                b <= hi,
                hi > 0,
                pow2(i) < pow2(146),
        ;
        assert(false);
    }
    let j = (x.exp + 200) as nat;
    lemma_pow2_unfold(j);
    let w = pow2((j - 1) as nat);
    assert(units(x) == a * pow2(j));
    assert(e * one() == 2 * (a * w)) by (nonlinear_arith)
        requires
            e * one() == a * pow2(j),
            pow2(j) == 2 * w,
    ;
    lemma_pow2_adds(52, 53);
    assert(pow2(105) == lo * hi);
    if i == 146 {
        assert(b == hi) by {
            assert(b * pow2(146) >= hi * pow2(146));
            assert(b >= hi) by (nonlinear_arith)
                requires
                    b * pow2(146) >= hi * pow2(146),
                    pow2(146) > 0,
            {
                if b < hi {
                    assert(b * pow2(146) < hi * pow2(146));
                }
            }
        }
        assert(n >= lo * hi) by (nonlinear_arith)
            requires
                n == a * b,
                a >= lo,
                b == hi,
        ;
        lemma_half_even_whole(a, hi);
        assert(p.mant == a);
        assert((p.exp + 200) as nat == (j - 1) as nat);
    } else if n < pow2(105) {
        assert(a * lo <= n) by (nonlinear_arith)
            requires
                n == a * b,
                b >= lo,
        ;
        lemma_half_even_grows(a * lo, n, lo);
        lemma_half_even_whole(a, lo);
        assert(p.mant >= a);
        assert((p.exp + 200) as nat == (j - 1) as nat);
        let m = p.mant;
        assert(m * w >= a * w) by (nonlinear_arith)
            requires
                m >= a,
        ;
    } else {
        assert((p.exp + 200) as nat == j);
        let m = p.mant;
        assert(m * pow2(j) >= a * w) by (nonlinear_arith)
            requires
                m >= lo,
                a <= 2 * lo,
                pow2(j) == 2 * w,
        ;
    }
}

/// A part that is at least one half of the whole takes at least one half of the cells.
pub proof fn larger_shares_take_no_fewer_cells(extent: nat, part: nat, whole: nat)
    requires
        0 < extent <= 65535,
        0 < part <= whole <= u64::MAX,
        whole <= 2 * part,
    ensures
        2 * share_cells(extent, part, whole) >= extent,
{
    lemma_powers();
    lemma_bounds();
    lemma_nearest(part);
    lemma_nearest(whole);
    lemma_share(part, whole);
    lemma_half_nearest(part, whole);
    let (x, y) = (nearest_of(part), nearest_of(whole));
    lemma_quotient(x, y);
    lemma_half_quotient(x, y);
    let f = quotient(x, y);
    let g = share(part, whole);
    lemma_less(f, smallest_share());
    lemma_less(largest_share(), f);
    lemma_exponent(g);
    let (k, t) = (pow2(50), one());
    let (lo, hi) = (units(smallest_share()), units(largest_share()));
    assert(2 * lo < t && 2 * hi >= t) by (nonlinear_arith)
        requires
            k * (20 * lo) <= (k + 1) * t,
            k * (20 * hi) >= (19 * k - 1) * t,
            k == 0x4_0000_0000_0000,
            t > 0,
    ;
    assert(2 * units(g) >= t);
    lemma_half_product(extent, g);
    lemma_nearest(extent);
    lemma2_to64();
    lemma2_to64_rest();
    lemma_bits_at_most(extent, 16);
    lemma_product(nearest_of(extent), g);
    let p = product(nearest_of(extent), g);
    lemma_round(p);
    let c = rounded(p);
    assert(2 * c >= extent) by (nonlinear_arith)
        requires
            2 * (c * t) > 2 * units(p) - t,
            2 * units(p) >= extent * t,
            t > 0,
    {
        if 2 * c < extent {
            assert((2 * c + 1) * t <= extent * t);
        }
    }
}

/// The ratio of a part to its whole is at most one, but for rounding.
proof fn lemma_at_most_one(f: Float, p: nat, w: nat)
    requires
        full(f),
        f.exp >= -200,
        0 < p <= w,
        pow2(50) * (units(f) * w) <= (pow2(50) + 1) * (p * one()),
    ensures
        f.exp <= -52,
{
    lemma_powers();
    if f.exp > -52 {
        let t = one();
        let u = units(f);
        let (k, m) = (pow2(50), f.mant);
        let e = pow2((f.exp + 200) as nat);
        lemma_pow2_adds(52, 149);
        lemma_pow2_adds(1, 200);
        if f.exp + 200 > 149 {
            lemma_pow2_strictly_increases(149, (f.exp + 200) as nat);
        }
        let (a, b) = (pow2(52), pow2(149));
        assert(u >= 2 * t) by (nonlinear_arith)
            requires
                u == m * e,
                m >= a,
                e >= b,
                a * b == 2 * t,
                a > 0,
        ;
        let (uw, pt) = (u * w, p * t);
        assert(uw >= 2 * pt && pt > 0) by (nonlinear_arith)
            requires
                u >= 2 * t,
                0 < p <= w,
                t > 0,
                uw == u * w,
                pt == p * t,
        ;
        assert(false) by (nonlinear_arith)
            requires
                k * uw <= (k + 1) * pt,
                uw >= 2 * pt,
                pt > 0,
                k == 0x4_0000_0000_0000,
        ;
    }
}

/// A value that is rounded after it was scaled differs by no more than one half.
proof fn lemma_scaled(p: Float, scale: nat)
    requires
        -200 <= p.exp < 0,
    ensures
        2 * (scaled(p, scale) * one()) <= 2 * (scale * units(p)) + one(),
        2 * (scaled(p, scale) * one()) >= 2 * (scale * units(p)) - one(),
{
    let k = (-p.exp) as nat;
    let w = pow2(k);
    lemma_pow2_pos(k);
    let m = p.mant * scale;
    half_even_is_nearest(m, w);
    let n = scaled(p, scale);
    let e = pow2((200 - k) as nat);
    lemma_pow2_pos((200 - k) as nat);
    lemma_pow2_adds(k, (200 - k) as nat);
    assert((p.exp + 200) as nat == (200 - k) as nat);
    let (pm, u, t) = (p.mant, units(p), one());
    assert(scale * u == m * e) by (nonlinear_arith)
        requires
            u == pm * e,
            m == pm * scale,
    ;
    assert(n * (w * e) == (n * w) * e) by (nonlinear_arith);
    let nw = n * w;
    assert(2 * (nw * e) <= 2 * (m * e) + w * e && 2 * (nw * e) >= 2 * (m * e) - w * e)
        by (nonlinear_arith)
        requires
            2 * nw <= 2 * m + w,
            2 * nw >= 2 * m - w,
            e > 0,
    ;
}

/// A percentage is shown as the nearest number, of wholes or of tenths: it differs from
/// the true one by no more than one half of the last place, but for a thousandth of it.
pub proof fn percentages_are_nearest(part: nat, whole: nat, scale: nat)
    requires
        part <= whole <= u64::MAX,
        0 < whole,
        0 < scale <= 100,
    ensures
        ({
            let v = scaled(percent(part, whole), scale);
            &&& 1000 * (v * whole) <= 1000 * (100 * scale * part) + 501 * whole
            &&& 1000 * (v * whole) >= 1000 * (100 * scale * part) - 501 * whole
        }),
{
    if part == 0 {
        assert(percent(part, whole) == Float::zero());
        assert(0nat * scale * pow2(0) == 0) by (nonlinear_arith);
        assert(scaled(percent(part, whole), scale) == 0);
        assert(0nat * whole == 0) by (nonlinear_arith);
        assert(100 * scale * part == 0) by (nonlinear_arith)
            requires
                part == 0,
        ;
    } else {
        lemma_powers();
        lemma_nearest(part);
        lemma_nearest(whole);
        lemma2_to64();
        lemma_bits_at_most(100, 7);
        lemma_nearest(100);
        let (x, y) = (nearest_of(part), nearest_of(whole));
        lemma_quotient(x, y);
        let f = quotient(x, y);
        lemma_ratio(part, whole, one(), units(x), units(y), units(f));
        lemma_at_most_one(f, part, whole);
        let h = nearest_of(100);
        assert(h.mant * f.mant == f.mant * h.mant) by (nonlinear_arith);
        assert(product(f, h) == product(h, f));
        lemma_product(h, f);
        let p = product(h, f);
        lemma_scaled(p, scale);
        let (t, d, u, g) = (one(), pow2(53), units(p), units(f));
        let e = 100 * scale;
        let su = scale * u;
        assert((d - 1) * (su * t) <= d * ((e * t) * g) && d * ((e * t) * g) <= (d + 1) * (su * t))
            by (nonlinear_arith)
            requires
                (d - 1) * (u * t) <= d * ((100 * t) * g),
                d * ((100 * t) * g) <= (d + 1) * (u * t),
                su == scale * u,
                e == 100 * scale,
                scale > 0,
        {
            assert((d - 1) * (su * t) == scale * ((d - 1) * (u * t)));
            assert((d + 1) * (su * t) == scale * ((d + 1) * (u * t)));
            assert(d * ((e * t) * g) == scale * (d * ((100 * t) * g)));
        }
        lemma_cells(e, part, whole, t, g, su, scaled(p, scale), pow2(50), d);
        assert(percent(part, whole) == p);
    }
}

/// The part of an extent that a part of a whole corresponds to is rounded to the nearest
/// number: it differs by no more than one half, but for a thousandth.
pub proof fn proportions_are_nearest(part: nat, whole: nat, extent: nat)
    requires
        part <= whole <= u64::MAX,
        0 < whole,
        0 < extent <= 65535,
    ensures
        ({
            let c = rounded(
                product(quotient(nearest_of(part), nearest_of(whole)), nearest_of(extent)),
            );
            &&& 1000 * (c * whole) <= 1000 * (extent * part) + 501 * whole
            &&& 1000 * (c * whole) >= 1000 * (extent * part) - 501 * whole
        }),
{
    if part == 0 {
        let f = product(quotient(nearest_of(part), nearest_of(whole)), nearest_of(extent));
        assert(f == Float::zero());
        lemma2_to64();
        assert(0nat * pow2(0) == 0) by (nonlinear_arith);
        assert(rounded(f) == 0);
        assert(0nat * whole == 0) by (nonlinear_arith);
        assert(extent * part == 0) by (nonlinear_arith)
            requires
                part == 0,
        ;
    } else {
        lemma_powers();
        lemma_nearest(part);
        lemma_nearest(whole);
        lemma2_to64();
        lemma2_to64_rest();
        lemma_bits_at_most(extent, 16);
        lemma_nearest(extent);
        let (x, y) = (nearest_of(part), nearest_of(whole));
        lemma_quotient(x, y);
        let f = quotient(x, y);
        lemma_ratio(part, whole, one(), units(x), units(y), units(f));
        lemma_at_most_one(f, part, whole);
        let h = nearest_of(extent);
        assert(h.mant * f.mant == f.mant * h.mant) by (nonlinear_arith);
        assert(product(f, h) == product(h, f));
        lemma_product(h, f);
        let p = product(h, f);
        lemma_round(p);
        lemma_cells(
            extent,
            part,
            whole,
            one(),
            units(f),
            units(p),
            rounded(p),
            pow2(50),
            pow2(53),
        );
    }
}

} // verus!
