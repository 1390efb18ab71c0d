//! Text scanning shared by the command-output parsers: whitespace trimming,
//! splitting into fields and lines, and decimal numbers.

use vstd::prelude::*;
use crate::natural::{digit_value, digits_value, is_digit};
use crate::text::{push_char, string_from_chars, to_chars, slice_chars};

verus! {

/// Unicode `White_Space` (what `char::is_whitespace` tests).
pub open spec fn is_ws(c: char) -> bool {
    ||| ('\u{9}' <= c && c <= '\u{d}')
    ||| c == ' '
    ||| c == '\u{85}'
    ||| c == '\u{a0}'
    ||| c == '\u{1680}'
    ||| ('\u{2000}' <= c && c <= '\u{200a}')
    ||| c == '\u{2028}'
    ||| c == '\u{2029}'
    ||| c == '\u{202f}'
    ||| c == '\u{205f}'
    ||| c == '\u{3000}'
}

pub fn is_whitespace(c: char) -> (r: bool)
    ensures
        r == is_ws(c),
{
    ('\u{9}' <= c && c <= '\u{d}') || c == ' ' || c == '\u{85}' || c == '\u{a0}' || c == '\u{1680}'
        || ('\u{2000}' <= c && c <= '\u{200a}') || c == '\u{2028}' || c == '\u{2029}' || c == '\u{202f}'
        || c == '\u{205f}' || c == '\u{3000}'
}

/// Number of whitespace characters at the start of `s`.
pub open spec fn lead_ws(s: Seq<char>) -> nat
    decreases s.len(),
{
    if s.len() > 0 && is_ws(s[0]) {
        1 + lead_ws(s.skip(1))
    } else {
        0
    }
}

/// Number of whitespace characters at the end of `s`.
pub open spec fn trail_ws(s: Seq<char>) -> nat
    decreases s.len(),
{
    if s.len() > 0 && is_ws(s.last()) {
        1 + trail_ws(s.drop_last())
    } else {
        0
    }
}

pub proof fn lemma_ws_bounds(s: Seq<char>)
    ensures
        lead_ws(s) <= s.len(),
        trail_ws(s) <= s.len(),
    decreases s.len(),
{
    if s.len() > 0 {
        lemma_ws_bounds(s.skip(1));
        lemma_ws_bounds(s.drop_last());
    }
}

/// `s` without leading and trailing whitespace (`str::trim`).
pub open spec fn trim_text(s: Seq<char>) -> Seq<char> {
    let a = lead_ws(s);
    if a >= s.len() {
        Seq::empty()
    } else {
        s.subrange(a as int, s.len() - trail_ws(s))
    }
}

proof fn lemma_lead_exact(s: Seq<char>, n: int)
    requires
        0 <= n <= s.len(),
        forall|i: int| 0 <= i < n ==> is_ws(#[trigger] s[i]),
        n == s.len() || !is_ws(s[n]),
    ensures
        lead_ws(s) == n,
    decreases n,
{
    if n > 0 {
        assert forall|i: int| 0 <= i < n - 1 implies is_ws(#[trigger] s.skip(1)[i]) by {
            assert(s.skip(1)[i] == s[i + 1]);
        }
        lemma_lead_exact(s.skip(1), n - 1);
    }
}

proof fn lemma_trail_exact(s: Seq<char>, n: int)
    requires
        0 <= n <= s.len(),
        forall|i: int| s.len() - n <= i < s.len() ==> is_ws(#[trigger] s[i]),
        n == s.len() || !is_ws(s[s.len() - n - 1]),
    ensures
        trail_ws(s) == n,
    decreases n,
{
    if n > 0 {
        assert forall|i: int| s.drop_last().len() - (n - 1) <= i < s.drop_last().len() implies is_ws(#[trigger] s.drop_last()[i]) by {
            assert(s.drop_last()[i] == s[i]);
        }
        lemma_trail_exact(s.drop_last(), n - 1);
    }
}

/// The characters of `s` without surrounding whitespace.
pub fn trim_chars(s: &[char]) -> (r: Vec<char>)
    ensures
        r@ == trim_text(s@),
{
    let n = s.len();
    let mut a: usize = 0;
    while a < n && is_whitespace(s[a])
        invariant
            a <= n,
            n == s@.len(),
            forall|i: int| 0 <= i < a ==> is_ws(#[trigger] s@[i]),
        decreases n - a,
    {
        a = a + 1;
    }
    proof {
        lemma_lead_exact(s@, a as int);
    }
    if a == n {
        return Vec::new();
    }
    let mut b: usize = n;
    while b > a && is_whitespace(s[b - 1])
        invariant
            a < n,
            a <= b <= n,
            n == s@.len(),
            !is_ws(s@[a as int]),
            forall|i: int| b <= i < n ==> is_ws(#[trigger] s@[i]),
        decreases b,
    {
        b = b - 1;
    }
    proof {
        lemma_trail_exact(s@, n - b);
    }
    slice_chars(s, a, b)
}

/// `s` trimmed (`str::trim`), as a new string.
pub fn trim(s: &str) -> (r: String)
    ensures
        r@ == trim_text(s@),
{
    let cs = to_chars(s);
    let t = trim_chars(cs.as_slice());
    string_from_chars(t.as_slice())
}

/// The pieces of `s` between the separators `sep` (`str::split` on a char):
/// always at least one piece.
pub open spec fn split_text(s: Seq<char>, sep: char) -> Seq<Seq<char>>
    decreases s.len(),
{
    if s.len() == 0 {
        seq![Seq::empty()]
    } else {
        let prev = split_text(s.drop_last(), sep);
        if s.last() == sep {
            prev.push(Seq::empty())
        } else {
            prev.update(prev.len() - 1, prev.last().push(s.last()))
        }
    }
}

pub proof fn lemma_split_nonempty(s: Seq<char>, sep: char)
    ensures
        split_text(s, sep).len() >= 1,
    decreases s.len(),
{
    if s.len() > 0 {
        lemma_split_nonempty(s.drop_last(), sep);
    }
}

/// Splits `s` at each `sep`.
pub fn split_chars(s: &[char], sep: char) -> (r: Vec<Vec<char>>)
    ensures
        r@.len() == split_text(s@, sep).len(),
        forall|i: int| 0 <= i < r@.len() ==> #[trigger] r@[i]@ == split_text(s@, sep)[i],
{
    let mut r: Vec<Vec<char>> = Vec::new();
    let mut cur: Vec<char> = Vec::new();
    let mut i: usize = 0;
    assert(s@.take(0) =~= Seq::<char>::empty());
    while i < s.len()
        invariant
            i <= s@.len(),
            r@.len() + 1 == split_text(s@.take(i as int), sep).len(),
            forall|k: int| 0 <= k < r@.len() ==> #[trigger] r@[k]@ == split_text(s@.take(i as int), sep)[k],
            cur@ == split_text(s@.take(i as int), sep).last(),
        decreases s@.len() - i,
    {
        let c = s[i];
        assert(s@.take(i + 1).drop_last() == s@.take(i as int));
        proof {
            lemma_split_nonempty(s@.take(i as int), sep);
        }
        if c == sep {
            let done = cur;
            r.push(done);
            cur = Vec::new();
        } else {
            cur.push(c);
        }
        i = i + 1;
    }
    assert(s@.take(s@.len() as int) == s@);
    r.push(cur);
    r
}

/// A line without the `\r` that came before its `\n`.
pub open spec fn strip_cr(line: Seq<char>) -> Seq<char> {
    if line.len() > 0 && line.last() == '\r' {
        line.drop_last()
    } else {
        line
    }
}

/// The lines of `s` (`str::lines`): the pieces between `\n`s, each that ended
/// with `\n` also losing a `\r` before it; a final line ending adds no empty
/// line.
pub open spec fn lines_text(s: Seq<char>) -> Seq<Seq<char>> {
    let p = split_text(s, '\n');
    let init = p.drop_last().map_values(|l: Seq<char>| strip_cr(l));
    if p.last().len() == 0 {
        init
    } else {
        init.push(p.last())
    }
}

/// Splits `s` into lines (`str::lines`).
pub fn lines(s: &[char]) -> (r: Vec<Vec<char>>)
    ensures
        r@.len() == lines_text(s@).len(),
        forall|i: int| 0 <= i < r@.len() ==> #[trigger] r@[i]@ == lines_text(s@)[i],
{
    let parts = split_chars(s, '\n');
    proof {
        lemma_split_nonempty(s@, '\n');
    }
    let ghost p = split_text(s@, '\n');
    let n = parts.len();
    let mut r: Vec<Vec<char>> = Vec::new();
    let mut i: usize = 0;
    while i + 1 < n
        invariant
            n == parts@.len(),
            n == p.len(),
            n >= 1,
            i + 1 <= n,
            forall|k: int| 0 <= k < n ==> #[trigger] parts@[k]@ == p[k],
            r@.len() == i,
            forall|k: int| 0 <= k < i ==> #[trigger] r@[k]@ == strip_cr(p[k]),
        decreases n - i,
    {
        let part = &parts[i];
        let len = part.len();
        let line = if len > 0 && part[len - 1] == '\r' {
            slice_chars(part.as_slice(), 0, len - 1)
        } else {
            slice_chars(part.as_slice(), 0, len)
        };
        proof {
            assert(part@.subrange(0, len as int) == part@);
        }
        r.push(line);
        i = i + 1;
    }
    let last = &parts[n - 1];
    if last.len() > 0 {
        let l = slice_chars(last.as_slice(), 0, last.len());
        assert(last@.subrange(0, last@.len() as int) == last@);
        r.push(l);
    }
    proof {
        let init = p.drop_last().map_values(|l: Seq<char>| strip_cr(l));
        assert forall|k: int| 0 <= k < r@.len() implies #[trigger] r@[k]@ == lines_text(s@)[k] by {
            if k < n - 1 {
                assert(init[k] == strip_cr(p[k]));
            }
        }
    }
    r
}

/// What `str::parse` gives for an unsigned integer: an optional `+`, then one
/// or more ASCII digits (the caller checks the range of the type).
pub open spec fn unsigned_value(s: Seq<char>) -> Option<nat> {
    let d = unsigned_digits(s);
    if all_digits(d) {
        Some(digits_value(d))
    } else {
        None
    }
}

/// The digits of an unsigned number: the text without a leading `+`.
pub open spec fn unsigned_digits(s: Seq<char>) -> Seq<char> {
    if s.len() > 0 && s[0] == '+' {
        s.skip(1)
    } else {
        s
    }
}

/// One or more characters, all ASCII digits.
pub open spec fn all_digits(d: Seq<char>) -> bool {
    d.len() > 0 && forall|i: int| 0 <= i < d.len() ==> is_digit(#[trigger] d[i])
}

/// `str::parse::<u64>`: `None` when the text is not a number or too large.
pub open spec fn parse_u64_text(s: Seq<char>) -> Option<nat> {
    match unsigned_value(s) {
        Some(v) => if v <= u64::MAX { Some(v) } else { None },
        None => None,
    }
}

/// Parses an unsigned decimal number of at most `u64::MAX`.
pub fn parse_u64(s: &[char]) -> (r: Option<u64>)
    ensures
        match r {
            Some(v) => parse_u64_text(s@) == Some(v as nat),
            None => parse_u64_text(s@) is None,
        },
{
    let start: usize = if s.len() > 0 && s[0] == '+' { 1 } else { 0 };
    let ghost d = unsigned_digits(s@);
    assert(d == s@.skip(start as int));
    if start == s.len() {
        return None;
    }
    let mut v: u64 = 0;
    let mut i = start;
    while i < s.len()
        invariant
            start <= i <= s@.len(),
            d == s@.skip(start as int),
            d == unsigned_digits(s@),
            forall|k: int| start <= k < i ==> is_digit(#[trigger] s@[k]),
            v == digits_value(s@.subrange(start as int, i as int)),
        decreases s@.len() - i,
    {
        let c = s[i];
        if !('0' <= c && c <= '9') {
            assert(d[i - start] == c);
            assert(!is_digit(d[i - start]));
            assert(!all_digits(d));
            return None;
        }
        assert(s@.subrange(start as int, i + 1).drop_last() == s@.subrange(start as int, i as int));
        let dv: u64 = ((c as u32) - 0x30) as u64;
        assert(dv == digit_value(c));
        let ghost p = s@.subrange(start as int, i + 1);
        assert(digits_value(p) == 10 * v + dv);
        assert(p == d.take(p.len() as int));
        match v.checked_mul(10) {
            Some(m) => match m.checked_add(dv) {
                Some(n) => {
                    v = n;
                },
                None => {
                    proof {
                        lemma_prefix_bound(p, d);

                    }
                    return None;
                },
            },
            None => {
                proof {
                    assert(10 * v + dv > u64::MAX) by (nonlinear_arith)
                        requires
                            10 * v > u64::MAX,
                            dv >= 0,
                    ;
                    lemma_prefix_bound(p, d);
                }
                return None;
            },
        }
        i = i + 1;
    }
    assert(s@.subrange(start as int, s@.len() as int) == d);
    Some(v)
}

/// Either `d` is not all digits, or its value exceeds `u64::MAX`.
spec fn unsigned_value_or_big(d: Seq<char>) -> bool {
    !all_digits(d) || digits_value(d) > u64::MAX
}

/// A run of digits is worth at least as much as any prefix of it.
proof fn lemma_prefix_bound(p: Seq<char>, full: Seq<char>)
    requires
        p.len() <= full.len(),
        p == full.take(p.len() as int),
        digits_value(p) > u64::MAX,
    ensures
        unsigned_value_or_big(full),
    decreases full.len() - p.len(),
{
    if p.len() < full.len() {
        let q = full.take(p.len() + 1int);
        assert(q.drop_last() == p);
        if all_digits(full) {
            assert(digits_value(q) == 10 * digits_value(p) + digit_value(q.last()));
            assert(digits_value(q) > u64::MAX);
            lemma_prefix_bound(q, full);
        }
    } else {
        assert(p == full);
    }
}


/// `str::parse::<usize>`.
pub open spec fn parse_usize_text(s: Seq<char>) -> Option<nat> {
    match unsigned_value(s) {
        Some(v) => if v <= usize::MAX { Some(v) } else { None },
        None => None,
    }
}

/// Parses an unsigned decimal number that fits in `usize`.
pub fn parse_usize(s: &[char]) -> (r: Option<usize>)
    ensures
        match r {
            Some(v) => parse_usize_text(s@) == Some(v as nat),
            None => parse_usize_text(s@) is None,
        },
{
    match parse_u64(s) {
        Some(v) => {
            if v <= usize::MAX as u64 {
                Some(v as usize)
            } else {
                None
            }
        },
        None => None,
    }
}

/// `str::parse::<i64>`: an optional sign, then one or more ASCII digits,
/// within the range of `i64`.
pub open spec fn parse_i64_text(s: Seq<char>) -> Option<int> {
    if s.len() > 0 && s[0] == '-' {
        let d = s.skip(1);
        if all_digits(d) && digits_value(d) <= 0x8000_0000_0000_0000 {
            Some(-(digits_value(d) as int))
        } else {
            None
        }
    } else {
        match unsigned_value(s) {
            Some(v) => if v <= i64::MAX { Some(v as int) } else { None },
            None => None,
        }
    }
}

/// Parses a signed decimal number that fits in `i64`.
pub fn parse_i64(s: &[char]) -> (r: Option<i64>)
    ensures
        match r {
            Some(v) => parse_i64_text(s@) == Some(v as int),
            None => parse_i64_text(s@) is None,
        },
{
    if s.len() > 0 && s[0] == '-' {
        let d = slice_chars(s, 1, s.len());
        assert(d@ == s@.skip(1));
        if d.len() > 0 && d[0] == '+' {
            assert(!all_digits(d@)) by {
                assert(!is_digit(d@[0]));
            }
            return None;
        }
        assert(unsigned_digits(d@) == d@);
        match parse_u64(d.as_slice()) {
            Some(v) => {
                if v <= 0x8000_0000_0000_0000 {
                    if v == 0x8000_0000_0000_0000 {
                        Some(i64::MIN)
                    } else {
                        let w: i64 = v as i64;
                        Some(-w)
                    }
                } else {
                    None
                }
            },
            None => {
                proof {
                    if all_digits(d@) {
                        assert(digits_value(d@) > u64::MAX);
                    }
                }
                None
            },
        }
    } else {
        match parse_u64(s) {
            Some(v) => {
                if v <= i64::MAX as u64 {
                    Some(v as i64)
                } else {
                    None
                }
            },
            None => None,
        }
    }
}

} // verus!
