//! Character-level string helpers shared by the formatting code.

use vstd::prelude::*;
use vstd::std_specs::iter::IteratorSpec;
use vstd::string::*;
use vstd::utf8::{encode_scalar, encode_utf8};

verus! {

broadcast use vstd::string::group_string_axioms;

/// The characters of `s`, in order.
pub fn to_chars(s: &str) -> (v: Vec<char>)
    ensures
        v@ == s@,
{
    let mut v: Vec<char> = Vec::new();
    let mut it = s.chars();
    loop
        invariant
            v@ + IteratorSpec::remaining(&it) == s@,
            IteratorSpec::decrease(&it) is Some,
        ensures
            v@ == s@,
        decreases IteratorSpec::decrease(&it)->0,
    {
        let ghost before = IteratorSpec::remaining(&it);
        match it.next() {
            Some(c) => {
                proof {
                    broadcast use vstd::string::next_postcondition;
                }
                assert(before == seq![c] + IteratorSpec::remaining(&it));
                v.push(c);
                assert(v@ + IteratorSpec::remaining(&it) == s@);
            },
            None => {
                proof {
                    broadcast use vstd::string::next_postcondition;
                }
                break;
            },
        }
    }
    v
}

/// Appends one character (`String::push`).
#[verifier::external_body]
pub(crate) fn push_char(s: &mut String, c: char)
    ensures
        final(s)@ == old(s)@.push(c),
{
    s.push(c);
}

/// Decimal digits of a natural number, most significant first.
pub open spec fn dec_digits(n: nat) -> Seq<char>
    decreases n,
{
    if n < 10 {
        seq![digit_char(n)]
    } else {
        dec_digits(n / 10).push(digit_char(n % 10))
    }
}

pub open spec fn digit_char(d: nat) -> char {
    if d == 0 { '0' }
    else if d == 1 { '1' }
    else if d == 2 { '2' }
    else if d == 3 { '3' }
    else if d == 4 { '4' }
    else if d == 5 { '5' }
    else if d == 6 { '6' }
    else if d == 7 { '7' }
    else if d == 8 { '8' }
    else { '9' }
}

fn digit(d: u64) -> (c: char)
    requires
        d < 10,
    ensures
        c == digit_char(d as nat),
{
    if d == 0 { '0' }
    else if d == 1 { '1' }
    else if d == 2 { '2' }
    else if d == 3 { '3' }
    else if d == 4 { '4' }
    else if d == 5 { '5' }
    else if d == 6 { '6' }
    else if d == 7 { '7' }
    else if d == 8 { '8' }
    else { '9' }
}

/// Appends the decimal form of `n`.
pub fn push_u128(s: &mut String, n: u128)
    ensures
        final(s)@ == old(s)@ + dec_digits(n as nat),
    decreases n,
{
    if n >= 10 {
        push_u128(s, n / 10);
    }
    let d: u128 = n % 10;
    push_char(s, digit(d as u64));
}

/// Appends the decimal form of `n`.
pub fn push_u64(s: &mut String, n: u64)
    ensures
        final(s)@ == old(s)@ + dec_digits(n as nat),
{
    push_u128(s, n as u128);
}

/// The decimal form of `n`.
pub fn u64_to_string(n: u64) -> (r: String)
    ensures
        r@ == dec_digits(n as nat),
{
    let mut s = String::new();
    push_u64(&mut s, n);
    assert(s@ == Seq::<char>::empty() + dec_digits(n as nat));
    s
}


/// A fresh `String` holding `s`.
pub fn owned(s: &str) -> (r: String)
    ensures
        r@ == s@,
{
    String::from_str(s)
}

/// Appends `t` to `s`.
pub fn push_str(s: &mut String, t: &str)
    ensures
        final(s)@ == old(s)@ + t@,
{
    s.append(t);
}

/// The string made of the characters `cs`.
pub fn string_from_chars(cs: &[char]) -> (r: String)
    ensures
        r@ == cs@,
{
    let mut r = String::new();
    let mut i: usize = 0;
    while i < cs.len()
        invariant
            i <= cs@.len(),
            r@ == cs@.take(i as int),
        decreases cs@.len() - i,
    {
        assert(cs@.take(i + 1) == cs@.take(i as int).push(cs@[i as int]));
        push_char(&mut r, cs[i]);
        i = i + 1;
    }
    assert(cs@.take(cs@.len() as int) == cs@);
    r
}

/// What `str::to_lowercase` returns for the characters `s` (full Unicode case mapping).
pub uninterp spec fn unicode_lowercase(s: Seq<char>) -> Seq<char>;

/// Lower-cases `s` with `str::to_lowercase`.
#[verifier::external_body]
pub(crate) fn to_lowercase(s: &str) -> (r: String)
    ensures
        r@ == unicode_lowercase(s@),
{
    s.to_lowercase()
}

/// `c` with ASCII letters `A`..`Z` mapped to `a`..`z`.
pub open spec fn ascii_lower(c: char) -> char {
    if 'A' <= c && c <= 'Z' {
        ((c as u32) + 32) as char
    } else {
        c
    }
}

/// `s` with every ASCII capital replaced by its small letter.
pub open spec fn ascii_lower_seq(s: Seq<char>) -> Seq<char> {
    s.map_values(|c: char| ascii_lower(c))
}

pub fn char_to_ascii_lower(c: char) -> (r: char)
    ensures
        r == ascii_lower(c),
{
    if 'A' <= c && c <= 'Z' {
        let u: u32 = c as u32;
        assert(0x41 <= u <= 0x5A);
        let l: u32 = u + 32;
        let b: u8 = l as u8;
        b as char
    } else {
        c
    }
}

/// `s` lower-cased in the ASCII range only.
pub fn to_ascii_lowercase(s: &str) -> (r: String)
    ensures
        r@ == ascii_lower_seq(s@),
{
    let cs = to_chars(s);
    let mut out: Vec<char> = Vec::new();
    let mut i: usize = 0;
    while i < cs.len()
        invariant
            i <= cs@.len(),
            cs@ == s@,
            out@ == ascii_lower_seq(cs@.take(i as int)),
        decreases cs@.len() - i,
    {
        let c = char_to_ascii_lower(cs[i]);
        out.push(c);
        assert(ascii_lower_seq(cs@.take(i + 1)) == ascii_lower_seq(cs@.take(i as int)).push(c));
        i = i + 1;
    }
    assert(cs@.take(cs@.len() as int) == cs@);
    string_from_chars(&out)
}

/// Whether `a` and `b` hold the same characters.
pub fn chars_eq(a: &[char], b: &[char]) -> (r: bool)
    ensures
        r == (a@ == b@),
{
    if a.len() != b.len() {
        return false;
    }
    let mut i: usize = 0;
    while i < a.len()
        invariant
            a@.len() == b@.len(),
            i <= a@.len(),
            forall|j: int| 0 <= j < i ==> a@[j] == b@[j],
        decreases a@.len() - i,
    {
        if a[i] != b[i] {
            return false;
        }
        i = i + 1;
    }
    assert(a@ =~= b@);
    true
}

/// Whether the characters `a` spell out `lit`.
pub fn chars_eq_str(a: &[char], lit: &str) -> (r: bool)
    ensures
        r == (a@ == lit@),
{
    let b = to_chars(lit);
    chars_eq(a, b.as_slice())
}

/// Whether `a` and `b` are the same string.
pub fn str_eq(a: &str, b: &str) -> (r: bool)
    ensures
        r == (a@ == b@),
{
    let x = to_chars(a);
    let y = to_chars(b);
    chars_eq(x.as_slice(), y.as_slice())
}

/// `s` begins with `p`.
pub open spec fn has_prefix(s: Seq<char>, p: Seq<char>) -> bool {
    p.len() <= s.len() && s.subrange(0, p.len() as int) == p
}

/// `s` ends with `p`.
pub open spec fn has_suffix(s: Seq<char>, p: Seq<char>) -> bool {
    p.len() <= s.len() && s.subrange(s.len() - p.len(), s.len() as int) == p
}

/// `p` occurs in `s` starting at position `i`.
pub open spec fn occurs_at(s: Seq<char>, p: Seq<char>, i: int) -> bool {
    0 <= i && i + p.len() <= s.len() && s.subrange(i, i + p.len()) == p
}

/// `p` occurs somewhere in `s`.
pub open spec fn has_infix(s: Seq<char>, p: Seq<char>) -> bool {
    exists|i: int| occurs_at(s, p, i)
}

/// Whether `p` occurs in `s` at position `i`.
pub fn matches_at(s: &[char], p: &[char], i: usize) -> (r: bool)
    ensures
        r == occurs_at(s@, p@, i as int),
{
    if i > s.len() || p.len() > s.len() - i {
        return false;
    }
    let mut j: usize = 0;
    while j < p.len()
        invariant
            i + p@.len() <= s@.len(),
            s@.len() == s.len(),
            p@.len() == p.len(),
            j <= p@.len(),
            forall|k: int| 0 <= k < j ==> s@[i + k] == p@[k],
        decreases p@.len() - j,
    {
        if s[i + j] != p[j] {
            assert(s@.subrange(i as int, i + p@.len())[j as int] != p@[j as int]);
            return false;
        }
        j = j + 1;
    }
    assert(s@.subrange(i as int, i + p@.len()) =~= p@);
    true
}

pub fn starts_with(s: &[char], p: &[char]) -> (r: bool)
    ensures
        r == has_prefix(s@, p@),
{
    matches_at(s, p, 0)
}

pub fn ends_with(s: &[char], p: &[char]) -> (r: bool)
    ensures
        r == has_suffix(s@, p@),
{
    if p.len() > s.len() {
        return false;
    }
    matches_at(s, p, s.len() - p.len())
}

/// The first position at which `p` occurs in `s`, if any.
pub open spec fn first_occurrence(s: Seq<char>, p: Seq<char>) -> Option<int> {
    if has_infix(s, p) {
        Some(choose|i: int| occurs_at(s, p, i) && forall|j: int| 0 <= j < i ==> !occurs_at(s, p, j))
    } else {
        None
    }
}

/// The first position at or after `from` where `p` occurs in `s`.
pub fn find_from(s: &[char], p: &[char], from: usize) -> (r: Option<usize>)
    ensures
        match r {
            Some(i) => from <= i && occurs_at(s@, p@, i as int) && forall|j: int|
                from <= j < i ==> !occurs_at(s@, p@, j),
            None => forall|j: int| from <= j ==> !occurs_at(s@, p@, j),
        },
{
    let mut i = from;
    while i < s.len()
        invariant
            from <= i,
            forall|j: int| from <= j < i ==> !occurs_at(s@, p@, j),
        decreases s@.len() - i,
    {
        if matches_at(s, p, i) {
            return Some(i);
        }
        i = i + 1;
    }
    if i == s.len() && matches_at(s, p, i) {
        return Some(i);
    }
    None
}

/// Whether `p` occurs in `s`.
pub fn contains(s: &[char], p: &[char]) -> (r: bool)
    ensures
        r == has_infix(s@, p@),
{
    match find_from(s, p, 0) {
        Some(i) => true,
        None => {
            assert(!has_infix(s@, p@));
            false
        },
    }
}

/// The last index at which `c` occurs in `s`.
pub open spec fn last_index_of(s: Seq<char>, c: char) -> Option<int> {
    if exists|i: int| 0 <= i < s.len() && s[i] == c {
        Some(choose|i: int| 0 <= i < s.len() && s[i] == c && forall|j: int| i < j < s.len() ==> s[j] != c)
    } else {
        None
    }
}

/// Position of the last `c` in `s` (like `str::rfind`, counted in characters).
pub fn rfind_char(s: &[char], c: char) -> (r: Option<usize>)
    ensures
        match r {
            Some(i) => i < s@.len() && s@[i as int] == c && forall|j: int| i < j < s@.len() ==> s@[j] != c,
            None => forall|j: int| 0 <= j < s@.len() ==> s@[j] != c,
        },
        r matches Some(i) ==> last_index_of(s@, c) == Some(i as int),
        r is None ==> last_index_of(s@, c) is None,
{
    let mut i = s.len();
    while i > 0
        invariant
            i <= s@.len(),
            forall|j: int| i <= j < s@.len() ==> s@[j] != c,
        decreases i,
    {
        if s[i - 1] == c {
            let ghost k = (i - 1) as int;
            assert(s@[k] == c && forall|j: int| k < j < s@.len() ==> s@[j] != c);
            assert(exists|x: int| 0 <= x < s@.len() && s@[x] == c);
            let ghost w = choose|x: int| 0 <= x < s@.len() && s@[x] == c && forall|j: int| x < j < s@.len() ==> s@[j] != c;
            assert(w == k) by {
                if w < k {} else if w > k {}
            }
            return Some(i - 1);
        }
        i = i - 1;
    }
    None
}

/// The characters `s[from..to]`.
pub fn slice_chars(s: &[char], from: usize, to: usize) -> (r: Vec<char>)
    requires
        from <= to <= s@.len(),
    ensures
        r@ == s@.subrange(from as int, to as int),
{
    let mut r: Vec<char> = Vec::new();
    let mut i = from;
    while i < to
        invariant
            from <= i <= to <= s@.len(),
            r@ == s@.subrange(from as int, i as int),
        decreases to - i,
    {
        r.push(s[i]);
        assert(s@.subrange(from as int, i + 1) == s@.subrange(from as int, i as int).push(s@[i as int]));
        i = i + 1;
    }
    r
}


/// The views of a sequence of strings.
pub open spec fn views(v: Seq<String>) -> Seq<Seq<char>> {
    v.map_values(|s: String| s@)
}

/// `parts` with `sep` between each two neighbours (`[String]::join`).
pub open spec fn join_spec(parts: Seq<Seq<char>>, sep: Seq<char>) -> Seq<char>
    decreases parts.len(),
{
    if parts.len() == 0 {
        Seq::empty()
    } else if parts.len() == 1 {
        parts[0]
    } else {
        join_spec(parts.drop_last(), sep) + sep + parts.last()
    }
}

/// Joins `parts` with `sep` between neighbours.
pub fn join(parts: &[String], sep: &str) -> (r: String)
    ensures
        r@ == join_spec(views(parts@), sep@),
{
    let mut r = String::new();
    let mut i: usize = 0;
    while i < parts.len()
        invariant
            i <= parts@.len(),
            r@ == join_spec(views(parts@.take(i as int)), sep@),
        decreases parts@.len() - i,
    {
        assert(views(parts@.take(i + 1)).drop_last() == views(parts@.take(i as int)));
        assert(views(parts@.take(i + 1)).last() == parts@[i as int]@);
        if i > 0 {
            push_str(&mut r, sep);
        }
        push_str(&mut r, parts[i].as_str());
        i = i + 1;
    }
    assert(parts@.take(parts@.len() as int) == parts@);
    r
}

/// Number of bytes `s` takes in UTF-8 (`str::len`).
pub open spec fn utf8_len(s: Seq<char>) -> nat {
    encode_utf8(s).len()
}

pub proof fn lemma_encode_utf8_push(s: Seq<char>, c: char)
    ensures
        encode_utf8(s.push(c)) == encode_utf8(s) + encode_scalar(c as u32),
    decreases s.len(),
{
    if s.len() == 0 {
        assert(s.push(c).drop_first() =~= Seq::<char>::empty());
        assert(encode_utf8(Seq::<char>::empty()) =~= Seq::<u8>::empty());
        assert(encode_utf8(s.push(c)) =~= encode_scalar(c as u32));
    } else {
        assert(s.push(c).drop_first() =~= s.drop_first().push(c));
        lemma_encode_utf8_push(s.drop_first(), c);
        assert(encode_utf8(s.push(c)) =~= encode_utf8(s) + encode_scalar(c as u32));
    }
}

/// Bytes taken by one character in UTF-8.
pub fn char_utf8_width(c: char) -> (r: u8)
    ensures
        r == encode_scalar(c as u32).len(),
        1 <= r <= 4,
{
    proof {
        broadcast use vstd::utf8::char_is_scalar;
    }
    let u: u32 = c as u32;
    assert(vstd::utf8::is_scalar(u));
    if u < 0x80 {
        1
    } else if u < 0x800 {
        2
    } else if u < 0x10000 {
        3
    } else {
        4
    }
}

/// Byte length of the UTF-8 encoding of `s`.
pub fn utf8_len_of(s: &[char]) -> (r: u128)
    ensures
        r == utf8_len(s@),
        r <= 4 * s@.len(),
{
    let mut n: u128 = 0;
    let mut i: usize = 0;
    while i < s.len()
        invariant
            i <= s@.len(),
            n == utf8_len(s@.take(i as int)),
            n <= 4 * i,
        decreases s@.len() - i,
    {
        let w = char_utf8_width(s[i]);
        proof {
            assert(s@.take(i + 1) == s@.take(i as int).push(s@[i as int]));
            lemma_encode_utf8_push(s@.take(i as int), s@[i as int]);
        }
        n = n + w as u128;
        i = i + 1;
    }
    assert(s@.take(s@.len() as int) == s@);
    n
}

/// `s` with each occurrence of `pat` replaced by `rep` (`str::replace`):
/// matches are taken left to right without overlap; an empty `pat` matches
/// before every character and at the end.
pub open spec fn replace_all(s: Seq<char>, pat: Seq<char>, rep: Seq<char>) -> Seq<char>
    decreases s.len(),
{
    if pat.len() == 0 {
        if s.len() == 0 {
            rep
        } else {
            rep + seq![s[0]] + replace_all(s.skip(1), pat, rep)
        }
    } else if s.len() < pat.len() {
        s
    } else if s.take(pat.len() as int) == pat {
        rep + replace_all(s.skip(pat.len() as int), pat, rep)
    } else {
        seq![s[0]] + replace_all(s.skip(1), pat, rep)
    }
}

/// Replaces every occurrence of `pat` in `s` by `rep`.
pub fn replace(s: &str, pat: &str, rep: &str) -> (r: String)
    ensures
        r@ == replace_all(s@, pat@, rep@),
{
    let cs = to_chars(s);
    let ps = to_chars(pat);
    let mut out = String::new();
    let mut i: usize = 0;
    assert(cs@.skip(0) == s@);
    assert(out@ + replace_all(cs@.skip(0), pat@, rep@) == replace_all(s@, pat@, rep@));
    while i < cs.len()
        invariant
            cs@ == s@,
            ps@ == pat@,
            i <= cs@.len(),
            out@ + replace_all(cs@.skip(i as int), pat@, rep@) == replace_all(s@, pat@, rep@),
        decreases cs@.len() - i,
    {
        let ghost rest = cs@.skip(i as int);
        if ps.len() == 0 {
            assert(rest.skip(1) == cs@.skip(i + 1));
            push_str(&mut out, rep);
            push_char(&mut out, cs[i]);
            assert(out@ + replace_all(cs@.skip(i + 1), pat@, rep@) == replace_all(s@, pat@, rep@));
            i = i + 1;
        } else if matches_at(cs.as_slice(), ps.as_slice(), i) {
            assert(rest.take(pat@.len() as int) == cs@.subrange(i as int, i + pat@.len()));
            assert(rest.skip(pat@.len() as int) == cs@.skip(i + ps@.len()));
            push_str(&mut out, rep);
            assert(out@ + replace_all(cs@.skip(i + ps@.len()), pat@, rep@) == replace_all(s@, pat@, rep@));
            i = i + ps.len();
        } else {
            proof {
                if rest.len() >= pat@.len() {
                    assert(rest.take(pat@.len() as int) == cs@.subrange(i as int, i + pat@.len()));
                }
            }
            if cs.len() - i < ps.len() {
                assert(replace_all(rest, pat@, rep@) == rest);
                let tail = crate::text::slice_chars(cs.as_slice(), i, cs.len());
                assert(tail@ == rest);
                let ts = string_from_chars(tail.as_slice());
                push_str(&mut out, ts.as_str());
                assert(cs@.skip(cs@.len() as int) == Seq::<char>::empty());
                assert(replace_all(Seq::<char>::empty(), pat@, rep@) == Seq::<char>::empty());
                assert(out@ + replace_all(cs@.skip(cs@.len() as int), pat@, rep@) == replace_all(s@, pat@, rep@));
                i = cs.len();
            } else {
                assert(rest.skip(1) == cs@.skip(i + 1));
                push_char(&mut out, cs[i]);
                assert(out@ + replace_all(cs@.skip(i + 1), pat@, rep@) == replace_all(s@, pat@, rep@));
                i = i + 1;
            }
        }
    }
    assert(cs@.skip(cs@.len() as int) == Seq::<char>::empty());
    if ps.len() == 0 {
        push_str(&mut out, rep);
    }
    out
}


/// The first `n` characters of `s`, or all of it when it is shorter.
pub open spec fn take_at_most(s: Seq<char>, n: nat) -> Seq<char> {
    if n <= s.len() {
        s.take(n as int)
    } else {
        s
    }
}

/// The first `n` characters of `s` (`chars().take(n)`).
pub fn take_chars(s: &[char], n: usize) -> (r: Vec<char>)
    ensures
        r@ == take_at_most(s@, n as nat),
{
    let end = if n <= s.len() { n } else { s.len() };
    let r = slice_chars(s, 0, end);
    assert(s@.subrange(0, s@.len() as int) == s@);
    r
}

} // verus!
