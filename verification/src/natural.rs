//! Natural ("version") ordering of names: runs of digits compare by value,
//! other characters compare case-insensitively in the ASCII range.

use vstd::prelude::*;
use std::cmp::Ordering;
use crate::text::{ascii_lower, char_to_ascii_lower, to_chars};

verus! {

pub open spec fn is_digit(c: char) -> bool {
    '0' <= c && c <= '9'
}

pub open spec fn digit_value(c: char) -> nat {
    ((c as u32) - 0x30) as nat
}

/// Length of the run of ASCII digits at the start of `s`.
pub open spec fn digit_run(s: Seq<char>) -> nat
    decreases s.len(),
{
    if s.len() > 0 && is_digit(s[0]) {
        1 + digit_run(s.skip(1))
    } else {
        0
    }
}

/// The number the decimal digits `d` spell.
pub open spec fn digits_value(d: Seq<char>) -> nat
    decreases d.len(),
{
    if d.len() == 0 {
        0
    } else {
        10 * digits_value(d.drop_last()) + digit_value(d.last())
    }
}

/// What `str::parse::<u64>` gives for a run of digits, with 0 for a number too large.
pub open spec fn run_value(d: Seq<char>) -> nat {
    if digits_value(d) <= u64::MAX {
        digits_value(d)
    } else {
        0
    }
}

pub proof fn lemma_digit_run_bound(s: Seq<char>)
    ensures
        digit_run(s) <= s.len(),
        s.len() > 0 && is_digit(s[0]) ==> digit_run(s) >= 1,
    decreases s.len(),
{
    if s.len() > 0 && is_digit(s[0]) {
        lemma_digit_run_bound(s.skip(1));
    }
}

/// Sign of the natural comparison of `a` and `b`: -1, 0 or 1.
/// Both empty: equal; one empty: it is smaller. Both starting with a digit:
/// the two digit runs compare by value, and on equal values the comparison
/// goes on after them. Otherwise the first characters compare ASCII
/// lower-cased, and on a tie the comparison goes on after them.
pub open spec fn natural_rank(a: Seq<char>, b: Seq<char>) -> int
    decreases a.len() + b.len(),
{
    if a.len() == 0 && b.len() == 0 {
        0
    } else if a.len() == 0 {
        -1
    } else if b.len() == 0 {
        1
    } else if is_digit(a[0]) && is_digit(b[0]) {
        let la = digit_run(a);
        let lb = digit_run(b);
        let va = run_value(a.take(la as int));
        let vb = run_value(b.take(lb as int));
        if va < vb {
            -1
        } else if va > vb {
            1
        } else {
            proof {
                lemma_digit_run_bound(a);
                lemma_digit_run_bound(b);
            }
            natural_rank(a.skip(la as int), b.skip(lb as int))
        }
    } else {
        let x = ascii_lower(a[0]);
        let y = ascii_lower(b[0]);
        if x < y {
            -1
        } else if x > y {
            1
        } else {
            natural_rank(a.skip(1), b.skip(1))
        }
    }
}

/// Swapping the arguments of the natural comparison flips its sign.
pub proof fn natural_rank_antisymmetric(a: Seq<char>, b: Seq<char>)
    ensures
        natural_rank(a, b) == -natural_rank(b, a),
    decreases a.len() + b.len(),
{
    if a.len() > 0 && b.len() > 0 {
        if is_digit(a[0]) && is_digit(b[0]) {
            lemma_digit_run_bound(a);
            lemma_digit_run_bound(b);
            natural_rank_antisymmetric(a.skip(digit_run(a) as int), b.skip(digit_run(b) as int));
        } else {
            natural_rank_antisymmetric(a.skip(1), b.skip(1));
        }
    }
}

/// Every string is naturally equal to itself.
pub proof fn natural_rank_reflexive(a: Seq<char>)
    ensures
        natural_rank(a, a) == 0,
    decreases a.len(),
{
    if a.len() > 0 {
        if is_digit(a[0]) {
            lemma_digit_run_bound(a);
            natural_rank_reflexive(a.skip(digit_run(a) as int));
        } else {
            natural_rank_reflexive(a.skip(1));
        }
    }
}

proof fn lemma_digit_run_before_letter(p: Seq<char>, x: Seq<char>)
    requires
        p.len() > 0,
        !is_digit(p.last()),
    ensures
        digit_run(p + x) == digit_run(p),
        digit_run(p) < p.len(),
    decreases p.len(),
{
    if is_digit(p[0]) {
        assert((p + x)[0] == p[0]);
        assert(p.len() >= 2);
        assert((p + x).skip(1) == p.skip(1) + x);
        assert(p.skip(1).last() == p.last());
        lemma_digit_run_before_letter(p.skip(1), x);
    } else {
        assert((p + x)[0] == p[0]);
    }
}

/// A common prefix that does not end inside a number does not change the
/// natural comparison: `p + x` and `p + y` compare as `x` and `y` do. So the
/// comparison goes on past equal numbers and equal characters.
pub proof fn natural_rank_common_prefix(p: Seq<char>, x: Seq<char>, y: Seq<char>)
    requires
        p.len() == 0 || !is_digit(p.last()),
    ensures
        natural_rank(p + x, p + y) == natural_rank(x, y),
    decreases p.len(),
{
    if p.len() == 0 {
        assert(p + x == x);
        assert(p + y == y);
    } else {
        let a = p + x;
        let b = p + y;
        assert(a[0] == p[0] && b[0] == p[0]);
        if is_digit(p[0]) {
            lemma_digit_run_before_letter(p, x);
            lemma_digit_run_before_letter(p, y);
            let r = digit_run(p);
            lemma_digit_run_bound(p);
            assert(a.take(r as int) == p.take(r as int));
            assert(b.take(r as int) == p.take(r as int));
            let q = p.skip(r as int);
            assert(a.skip(r as int) == q + x);
            assert(b.skip(r as int) == q + y);
            assert(q.len() > 0 && q.last() == p.last());
            natural_rank_common_prefix(q, x, y);
        } else {
            let q = p.skip(1);
            assert(a.skip(1) == q + x);
            assert(b.skip(1) == q + y);
            if q.len() > 0 {
                assert(q.last() == p.last());
            }
            natural_rank_common_prefix(q, x, y);
        }
    }
}

proof fn lemma_digit_run_exact(s: Seq<char>, n: int)
    requires
        0 <= n <= s.len(),
        forall|t: int| 0 <= t < n ==> is_digit(#[trigger] s[t]),
        n == s.len() || !is_digit(s[n]),
    ensures
        digit_run(s) == n,
    decreases n,
{
    if n > 0 {
        lemma_digit_run_exact(s.skip(1), n - 1);
    }
}

/// Reads the digit run of `s` that starts at `start`: where it ends, and its value.
fn read_number(s: &[char], start: usize) -> (r: (usize, u64))
    requires
        start < s@.len(),
    ensures
        r.0 == start + digit_run(s@.skip(start as int)),
        r.0 <= s@.len(),
        r.1 == run_value(s@.skip(start as int).take(digit_run(s@.skip(start as int)) as int)),
{
    let mut k = start;
    let mut v: u64 = 0;
    let mut overflow = false;
    assert(s@.subrange(start as int, start as int) =~= Seq::<char>::empty());
    while k < s.len() && '0' <= s[k] && s[k] <= '9'
        invariant
            start <= k <= s@.len(),
            forall|t: int| start <= t < k ==> is_digit(#[trigger] s@[t]),
            !overflow ==> v == digits_value(s@.subrange(start as int, k as int)),
            overflow ==> digits_value(s@.subrange(start as int, k as int)) > u64::MAX,
        decreases s@.len() - k,
    {
        let d: u64 = ((s[k] as u32) - 0x30) as u64;
        let ghost old_val = digits_value(s@.subrange(start as int, k as int));
        assert(s@.subrange(start as int, k + 1).drop_last() == s@.subrange(start as int, k as int));
        assert(digits_value(s@.subrange(start as int, k + 1)) == 10 * old_val + d);
        if !overflow {
            match v.checked_mul(10) {
                Some(m) => match m.checked_add(d) {
                    Some(n) => {
                        v = n;
                    },
                    None => {
                        overflow = true;
                    },
                },
                None => {
                    overflow = true;
                    assert(10 * old_val + d > u64::MAX) by (nonlinear_arith)
                        requires
                            10 * old_val > u64::MAX,
                            d >= 0,
                    ;
                },
            }
        } else {
            assert(10 * old_val + d > u64::MAX) by (nonlinear_arith)
                requires
                    old_val > u64::MAX,
                    d >= 0,
            ;
        }
        k = k + 1;
    }
    let ghost rest = s@.skip(start as int);
    assert forall|t: int| 0 <= t < k - start implies is_digit(#[trigger] rest[t]) by {
        assert(rest[t] == s@[start + t]);
    }
    proof {
        if k < s@.len() {
            assert(rest[k - start] == s@[k as int]);
        }
    }
    proof {
        lemma_digit_run_exact(rest, k - start);
    }
    assert(rest.take(k - start) == s@.subrange(start as int, k as int));
    (k, if overflow { 0 } else { v })
}

/// The sign of the natural comparison of `a` and `b`.
pub fn natural_rank_of(a: &[char], b: &[char]) -> (r: i8)
    ensures
        r == natural_rank(a@, b@),
        -1 <= r <= 1,
{
    let mut i: usize = 0;
    let mut j: usize = 0;
    assert(a@.skip(0) == a@);
    assert(b@.skip(0) == b@);
    loop
        invariant
            i <= a@.len(),
            j <= b@.len(),
            natural_rank(a@, b@) == natural_rank(a@.skip(i as int), b@.skip(j as int)),
        decreases a@.len() + b@.len() - i - j,
    {
        let ghost x = a@.skip(i as int);
        let ghost y = b@.skip(j as int);
        if i == a.len() && j == b.len() {
            return 0;
        }
        if i == a.len() {
            return -1;
        }
        if j == b.len() {
            return 1;
        }
        let ca = a[i];
        let cb = b[j];
        assert(x[0] == ca && y[0] == cb);
        if '0' <= ca && ca <= '9' && '0' <= cb && cb <= '9' {
            let (ea, va) = read_number(a, i);
            let (eb, vb) = read_number(b, j);
            if va < vb {
                return -1;
            }
            if va > vb {
                return 1;
            }
            proof {
                lemma_digit_run_bound(x);
                lemma_digit_run_bound(y);
            }
            assert(x.skip(digit_run(x) as int) == a@.skip(ea as int));
            assert(y.skip(digit_run(y) as int) == b@.skip(eb as int));
            i = ea;
            j = eb;
        } else {
            let la = char_to_ascii_lower(ca);
            let lb = char_to_ascii_lower(cb);
            if la < lb {
                return -1;
            }
            if la > lb {
                return 1;
            }
            assert(x.skip(1) == a@.skip(i + 1));
            assert(y.skip(1) == b@.skip(j + 1));
            i = i + 1;
            j = j + 1;
        }
    }
}

/// The `Ordering` a comparison sign stands for.
pub open spec fn ordering_of(r: int) -> Ordering {
    if r < 0 {
        Ordering::Less
    } else if r == 0 {
        Ordering::Equal
    } else {
        Ordering::Greater
    }
}

/// Natural comparison for version sorting (e.g., file1, file2, file10)
pub fn natural_cmp(a: &str, b: &str) -> (r: Ordering)
    ensures
        r == ordering_of(natural_rank(a@, b@)),
{
    let x = to_chars(a);
    let y = to_chars(b);
    let c = natural_rank_of(x.as_slice(), y.as_slice());
    if c < 0 {
        Ordering::Less
    } else if c == 0 {
        Ordering::Equal
    } else {
        Ordering::Greater
    }
}

} // verus!
