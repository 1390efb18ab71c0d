//! Integer model of the IEEE-754 double arithmetic the formatting code relies on.
//!
//! Sizes, line counts and durations are shown with one decimal (or none) after
//! dividing by a unit. The value that gets printed is the double nearest to the
//! quotient (ties to even), rounded again to the requested number of decimals
//! (ties to even). Everything here computes that value exactly with integers.

use vstd::prelude::*;
use crate::text::{dec_digits, push_char, push_u128};

verus! {

/// 2 to the power `k`.
pub open spec fn p2(k: nat) -> nat
    decreases k,
{
    if k == 0 {
        1
    } else {
        2 * p2((k - 1) as nat)
    }
}

pub proof fn lemma_p2_pos(k: nat)
    ensures
        p2(k) >= 1,
    decreases k,
{
    if k > 0 {
        lemma_p2_pos((k - 1) as nat);
    }
}

pub proof fn lemma_p2_mono(a: nat, b: nat)
    requires
        a <= b,
    ensures
        p2(a) <= p2(b),
    decreases b,
{
    if a < b {
        lemma_p2_mono(a, (b - 1) as nat);
        lemma_p2_pos((b - 1) as nat);
    }
}

pub proof fn lemma_p2_add(a: nat, b: nat)
    ensures
        p2(a + b) == p2(a) * p2(b),
    decreases a,
{
    if a > 0 {
        lemma_p2_add((a - 1) as nat, b);
        assert(p2(a + b) == 2 * p2((a - 1 + b) as nat));
        assert(2 * (p2((a - 1) as nat) * p2(b)) == (2 * p2((a - 1) as nat)) * p2(b)) by (nonlinear_arith);
    } else {
        assert(p2(0) == 1);
    }
}

pub proof fn lemma_p2_64()
    ensures
        p2(65) == 0x2_0000_0000_0000_0000,
        p2(64) == 0x1_0000_0000_0000_0000,
        p2(12) == 4096,
        p2(52) == 0x10_0000_0000_0000,
        p2(30) == 0x4000_0000,
        p2(22) == 0x40_0000,
        p2(11) == 2048,
{
    reveal_with_fuel(p2, 13);
    assert(p2(11) == 2048);
    assert(p2(12) == 4096);
    assert(p2(8) == 256);
    lemma_p2_add(11, 11);
    lemma_p2_add(22, 22);
    lemma_p2_add(44, 8);
    lemma_p2_add(44, 20);
    lemma_p2_add(11, 9);
    lemma_p2_add(22, 8);
    assert(p2(9) == 512);
    assert(p2(20) == 0x10_0000) by (nonlinear_arith)
        requires
            p2(20) == p2(11) * p2(9),
            p2(11) == 2048,
            p2(9) == 512,
    ;
    assert(p2(22) == 0x40_0000) by (nonlinear_arith)
        requires
            p2(22) == p2(11) * p2(11),
            p2(11) == 2048,
    ;
    assert(p2(44) == 0x1000_0000_0000) by (nonlinear_arith)
        requires
            p2(44) == p2(22) * p2(22),
            p2(22) == 0x40_0000,
    ;
    assert(p2(52) == 0x10_0000_0000_0000) by (nonlinear_arith)
        requires
            p2(52) == p2(44) * p2(8),
            p2(44) == 0x1000_0000_0000,
            p2(8) == 256,
    ;
    assert(p2(30) == 0x4000_0000) by (nonlinear_arith)
        requires
            p2(30) == p2(22) * p2(8),
            p2(22) == 0x40_0000,
            p2(8) == 256,
    ;
    assert(p2(64) == 0x1_0000_0000_0000_0000) by (nonlinear_arith)
        requires
            p2(64) == p2(44) * p2(20),
            p2(44) == 0x1000_0000_0000,
            p2(20) == 0x10_0000,
    ;
    assert(p2(65) == 2 * p2(64));
}

/// `2^k` as a machine integer.
pub fn pow2_u128(k: u32) -> (r: u128)
    requires
        k <= 65,
    ensures
        r == p2(k as nat),
{
    let mut r: u128 = 1;
    let mut i: u32 = 0;
    assert(p2(0) == 1);
    while i < k
        invariant
            i <= k <= 65,
            r == p2(i as nat),
        decreases k - i,
    {
        proof {
            lemma_p2_mono((i + 1) as nat, 65);
            lemma_p2_64();
        }
        r = r * 2;
        i = i + 1;
    }
    r
}

/// `n / d` rounded to the nearest integer, ties to the even one.
pub open spec fn round_ne(n: nat, d: nat) -> nat
    recommends
        d > 0,
{
    let q = n / d;
    let r = n % d;
    if 2 * r > d || (2 * r == d && q % 2 == 1) {
        q + 1
    } else {
        q
    }
}

pub fn round_ne_u128(n: u128, d: u128) -> (r: u128)
    requires
        0 < d < 0x4000_0000_0000_0000_0000_0000_0000_0000,
        n < 0xFFFF_FFFF_FFFF_FFFF_FFFF_FFFF_FFFF_FFFF,
    ensures
        r == round_ne(n as nat, d as nat),
        r <= n / d + 1,
{
    let q = n / d;
    let m = n % d;
    assert(q <= n) by (nonlinear_arith)
        requires
            d > 0,
            q == n / d,
            n >= 0,
    ;
    if 2 * m > d || (2 * m == d && q % 2 == 1) {
        q + 1
    } else {
        q
    }
}

/// The binary exponent of `p / d`: the largest `e` with `d * 2^e <= p`.
pub open spec fn exp2_floor(p: nat, d: nat) -> nat
    recommends
        0 < d <= p,
    decreases p - d,
    when 0 < d && d <= p
{
    if p < 2 * d {
        0
    } else {
        1 + exp2_floor(p, 2 * d)
    }
}

pub proof fn lemma_exp2_floor(p: nat, d: nat)
    requires
        0 < d <= p,
    ensures
        d * p2(exp2_floor(p, d)) <= p < d * p2(exp2_floor(p, d) + 1),
    decreases p - d,
{
    if p >= 2 * d {
        lemma_exp2_floor(p, 2 * d);
        let e = exp2_floor(p, 2 * d);
        assert(exp2_floor(p, d) == 1 + e);
        let a = p2(e);
        let b = p2(e + 1);
        let c = p2(e + 2);
        assert(b == 2 * a);
        assert(c == 2 * b);
        assert((2 * d) * a == d * b) by (nonlinear_arith)
            requires
                b == 2 * a,
        ;
        assert((2 * d) * b == d * c) by (nonlinear_arith)
            requires
                c == 2 * b,
        ;
        assert(d * p2(exp2_floor(p, d)) == d * b);
        assert(d * p2(exp2_floor(p, d) + 1) == d * c);
        assert(d * b <= p < d * c);
    } else {
        assert(exp2_floor(p, d) == 0);
        assert(p2(0) == 1);
        assert(p2(1) == 2 * p2(0));
        assert(d * p2(0) == d);
        assert(d * p2(1) == 2 * d) by (nonlinear_arith)
            requires
                p2(1) == 2,
        ;
    }
}

/// The double nearest to `p / d` (ties to even), as a fraction `num / den`.
/// Meant for quotients of at least 1, which always have a normal exponent.
pub open spec fn f64_of_ratio(p: nat, d: nat) -> (nat, nat)
    recommends
        0 < d <= p,
{
    let e = exp2_floor(p, d);
    if e <= 52 {
        let k = (52 - e) as nat;
        (round_ne(p * p2(k), d), p2(k))
    } else {
        let k = (e - 52) as nat;
        (round_ne(p, d * p2(k)) * p2(k), 1)
    }
}

fn exp2_floor_u128(p: u128, d: u128) -> (e: u32)
    requires
        0 < d <= p,
        p < 0x2_0000_0000_0000_0000,
    ensures
        e == exp2_floor(p as nat, d as nat),
        e < 65,
{
    let mut dd = d;
    let mut e: u32 = 0;
    assert(p2(0) == 1);
    while dd <= p / 2
        invariant
            0 < d <= dd <= p < 0x2_0000_0000_0000_0000,
            dd == d * p2(e as nat),
            exp2_floor(p as nat, d as nat) == e + exp2_floor(p as nat, dd as nat),
            e < 65,
        decreases p - dd,
    {
        assert(p2((e + 1) as nat) == 2 * p2(e as nat));
        assert(d * p2((e + 1) as nat) == 2 * dd) by (nonlinear_arith)
            requires
                p2((e + 1) as nat) == 2 * p2(e as nat),
                dd == d * p2(e as nat),
        ;
        dd = dd * 2;
        e = e + 1;
        proof {
            lemma_p2_pos(e as nat);
            assert(p2(e as nat) <= dd) by (nonlinear_arith)
                requires
                    dd == d * p2(e as nat),
                    d >= 1,
            ;
            if e >= 65 {
                lemma_p2_mono(65, e as nat);
                lemma_p2_64();
            }
        }
    }
    e
}

fn f64_of_ratio_small(p: u128, d: u128, e: u32) -> (r: (u128, u128))
    requires
        0 < d <= p,
        p < 0x2_0000_0000_0000_0000,
        e == exp2_floor(p as nat, d as nat),
        e <= 52,
    ensures
        (r.0 as nat, r.1 as nat) == f64_of_ratio(p as nat, d as nat),
        0 < r.1 <= 0x10_0000_0000_0000,
        r.1 == p2((52 - e) as nat),
        r.0 < 0x100_0000_0000_0000_0000_0000_0000_0000,
        r.0 <= 2 * p * r.1,
{
    let k = 52 - e;
    let s = pow2_u128(k);
    proof {
        lemma_p2_mono(k as nat, 52);
        lemma_p2_64();
        lemma_p2_pos(k as nat);
    }
    assert(p * s <= 0x1_FFFF_FFFF_FFFF_FFFF * 0x10_0000_0000_0000) by (nonlinear_arith)
        requires
            p < 0x2_0000_0000_0000_0000,
            s <= 0x10_0000_0000_0000,
    ;
    let ps = p * s;
    let n = round_ne_u128(ps, d);
    assert(ps / d <= ps) by (nonlinear_arith)
        requires
            d >= 1,
            ps >= 0,
    ;
    assert(n <= 2 * p * s) by (nonlinear_arith)
        requires
            n <= ps + 1,
            ps == p * s,
            p >= 1,
            s >= 1,
    ;
    (n, s)
}

fn f64_of_ratio_large(p: u128, d: u128, e: u32) -> (r: (u128, u128))
    requires
        0 < d <= p,
        p < 0x2_0000_0000_0000_0000,
        d < 0x1_0000_0000_0000_0000,
        e == exp2_floor(p as nat, d as nat),
        52 < e < 65,
    ensures
        (r.0 as nat, r.1 as nat) == f64_of_ratio(p as nat, d as nat),
        r.1 == 1,
        r.0 < 0x100_0000_0000_0000_0000_0000_0000_0000,
        r.0 <= 2 * p,
{
    let k = e - 52;
    let s = pow2_u128(k);
    proof {
        lemma_p2_mono(k as nat, 12);
        lemma_p2_64();
        lemma_p2_pos(k as nat);
    }
    assert(d * s <= 0xFFFF_FFFF_FFFF_FFFF * 4096) by (nonlinear_arith)
        requires
            d < 0x1_0000_0000_0000_0000,
            s <= 4096,
    ;
    let ds = d * s;
    assert(ds >= 1) by (nonlinear_arith)
        requires
            ds == d * s,
            d >= 1,
            s >= 1,
    ;
    let m = round_ne_u128(p, ds);
    assert(p / ds <= p) by (nonlinear_arith)
        requires
            ds >= 1,
            p >= 0,
    ;
    assert(m * s <= (p + 1) * 4096) by (nonlinear_arith)
        requires
            m <= p + 1,
            s <= 4096,
            m >= 0,
    ;
    proof {
        lemma_exp2_floor(p as nat, d as nat);
        lemma_p2_mono(k as nat, e as nat);
        assert(s <= p) by (nonlinear_arith)
            requires
                d * p2(e as nat) <= p,
                s <= p2(e as nat),
                d >= 1,
        ;
        let q = p / ds;
        assert(q * s <= p) by (nonlinear_arith)
            requires
                q == p / ds,
                ds == d * s,
                d >= 1,
                s >= 1,
        ;
        assert(m * s <= 2 * p) by (nonlinear_arith)
            requires
                m <= q + 1,
                q * s <= p,
                s <= p,
        ;
    }
    (m * s, 1)
}

/// The double nearest to `p / d` (ties to even), for `1 <= p / d`, `p <= 2^64`, `d < 2^64`.
pub fn f64_of_ratio_u128(p: u128, d: u128) -> (r: (u128, u128))
    requires
        0 < d <= p,
        p < 0x2_0000_0000_0000_0000,
        d < 0x1_0000_0000_0000_0000,
    ensures
        (r.0 as nat, r.1 as nat) == f64_of_ratio(p as nat, d as nat),
        0 < r.1 <= 0x10_0000_0000_0000,
        r.0 < 0x100_0000_0000_0000_0000_0000_0000_0000,
        r.0 <= 2 * p * r.1,
        d * p2(30) <= p ==> r.1 <= p2(22),
{
    let e = exp2_floor_u128(p, d);
    proof {
        lemma_exp2_floor(p as nat, d as nat);
        if d * p2(30) <= p && e < 30 {
            lemma_p2_mono((e + 1) as nat, 30);
            assert(d * p2((e + 1) as nat) <= d * p2(30)) by (nonlinear_arith)
                requires
                    p2((e + 1) as nat) <= p2(30),
                    d >= 0,
            ;
        }
        if e <= 52 && e >= 30 {
            lemma_p2_mono((52 - e) as nat, 22);
        }
        lemma_p2_pos(22);
    }
    if e <= 52 {
        f64_of_ratio_small(p, d, e)
    } else {
        let r = f64_of_ratio_large(p, d, e);
        assert(r.0 <= 2 * p * r.1) by (nonlinear_arith)
            requires
                r.1 == 1,
                r.0 <= 2 * p,
        ;
        r
    }
}

/// The text `{:.1}` prints for `num / den`: rounded to tenths, ties to even.
pub open spec fn fixed1_text(num: nat, den: nat) -> Seq<char> {
    let t = round_ne(10 * num, den);
    dec_digits(t / 10) + seq!['.'] + dec_digits(t % 10)
}

/// The text `{:.0}` prints for `num / den`: rounded to an integer, ties to even.
pub open spec fn fixed0_text(num: nat, den: nat) -> Seq<char> {
    dec_digits(round_ne(num, den))
}

/// Appends `num / den` with one decimal.
pub fn push_fixed1(s: &mut String, num: u128, den: u128)
    requires
        0 < den <= 0x10_0000_0000_0000,
        num < 0x100_0000_0000_0000_0000_0000_0000_0000,
    ensures
        final(s)@ == old(s)@ + fixed1_text(num as nat, den as nat),
{
    let t = round_ne_u128(num * 10, den);
    push_u128(s, t / 10);
    push_char(s, '.');
    push_u128(s, t % 10);
}

/// Appends `num / den` rounded to an integer.
pub fn push_fixed0(s: &mut String, num: u128, den: u128)
    requires
        0 < den <= 0x10_0000_0000_0000,
        num < 0x100_0000_0000_0000_0000_0000_0000_0000,
    ensures
        final(s)@ == old(s)@ + fixed0_text(num as nat, den as nat),
{
    let t = round_ne_u128(num, den);
    push_u128(s, t);
}

} // verus!
