//! Listening ports of a project: parsing `ss -tlnp` and `lsof -F pcftn`
//! output, and collecting the ports of processes running in the project.

use vstd::prelude::*;
use crate::natural::{digit_run, digits_value, is_digit, lemma_digit_run_bound};
use crate::parse::{is_whitespace, is_ws, lines, lines_text, parse_u64, parse_u64_text};
use crate::text::{has_infix, has_prefix, rfind_char, slice_chars, to_chars};

verus! {

/// Ports a project listens on, ascending.
#[derive(Debug, Clone)]
pub struct PortInfo {
    pub ports: Vec<u16>,
}

/// `xs` without repeated values, first occurrences kept in order.
pub open spec fn dedup<T>(xs: Seq<T>) -> Seq<T>
    decreases xs.len(),
{
    if xs.len() == 0 {
        xs
    } else {
        let prev = dedup(xs.drop_last());
        if prev.contains(xs.last()) {
            prev
        } else {
            prev.push(xs.last())
        }
    }
}

/// The process ids in an `ss` process field such as
/// `users:(("node",pid=111,fd=7),("node",pid=222,fd=7))`: scanning left to
/// right, after each `pid=` the run of digits that follows, when it forms a
/// `u32`.
pub open spec fn pids_in(s: Seq<char>) -> Seq<u32>
    decreases s.len(),
{
    if s.len() < 4 {
        Seq::empty()
    } else if s.take(4) == "pid="@ {
        let t = s.skip(4);
        let e = digit_run(t);
        let here: Seq<u32> = if e > 0 && digits_value(t.take(e as int)) <= u32::MAX {
            seq![digits_value(t.take(e as int)) as u32]
        } else {
            Seq::empty()
        };
        proof {
            lemma_digit_run_bound(t);
        }
        here + pids_in(t.skip(e as int))
    } else {
        pids_in(s.skip(1))
    }
}

fn pid_literal() -> (r: Vec<char>)
    ensures
        r@ == "pid="@,
{
    let r = vec!['p', 'i', 'd', '='];
    proof {
        reveal_strlit("pid=");
    }
    assert(r@ =~= "pid="@);
    r
}

fn scan_digits(cs: &Vec<char>, start: usize) -> (end: usize)
    requires
        start <= cs@.len(),
    ensures
        start <= end <= cs@.len(),
        digit_run(cs@.skip(start as int)) == end - start,
        cs@.skip(start as int).take(end - start) == cs@.subrange(start as int, end as int),
        cs@.skip(start as int).skip(end - start) == cs@.skip(end as int),
        forall|k: int| start <= k < end ==> is_digit(#[trigger] cs@[k]),
{
    let mut end = start;
    while end < cs.len() && '0' <= cs[end] && cs[end] <= '9'
        invariant
            start <= end <= cs@.len(),
            forall|k: int| start <= k < end ==> is_digit(#[trigger] cs@[k]),
        decreases cs@.len() - end,
    {
        end = end + 1;
    }
    let ghost t = cs@.skip(start as int);
    proof {
        assert forall|k: int| 0 <= k < end - start implies is_digit(#[trigger] t[k]) by {
            assert(t[k] == cs@[start + k]);
        }
        if end < cs@.len() {
            assert(t[end - start] == cs@[end as int]);
        }
        lemma_digit_run_exact(t, end - start);
    }
    assert(t.take(end - start) == cs@.subrange(start as int, end as int));
    assert(t.skip(end - start) == cs@.skip(end as int));
    end
}

fn push_unique(found: &mut Vec<u32>, x: u32)
    ensures
        final(found)@ == (if old(found)@.contains(x) { old(found)@ } else { old(found)@.push(x) }),
{
    let mut k: usize = 0;
    while k < found.len()
        invariant
            k <= found@.len(),
            forall|q: int| 0 <= q < k ==> found@[q] != x,
        decreases found@.len() - k,
    {
        if found[k] == x {
            assert(found@.contains(x));
            return;
        }
        k = k + 1;
    }
    found.push(x);
}

/// The `u32` that a run of digits spells, if it fits.
fn digits_u32(cs: &Vec<char>, start: usize, end: usize) -> (r: Option<u32>)
    requires
        start < end <= cs@.len(),
        forall|k: int| start <= k < end ==> is_digit(#[trigger] cs@[k]),
    ensures
        r == (if digits_value(cs@.subrange(start as int, end as int)) <= u32::MAX {
            Some(digits_value(cs@.subrange(start as int, end as int)) as u32)
        } else {
            None::<u32>
        }),
{
    let digits = slice_chars(cs.as_slice(), start, end);
    assert(crate::parse::unsigned_digits(digits@) == digits@);
    assert forall|i: int| 0 <= i < digits@.len() implies is_digit(#[trigger] digits@[i]) by {
        assert(digits@[i] == cs@[start + i]);
    }
    assert(crate::parse::all_digits(digits@));
    match parse_u64(digits.as_slice()) {
        Some(v) => {
            if v <= u32::MAX as u64 {
                Some(v as u32)
            } else {
                None
            }
        },
        None => None,
    }
}

/// Reads the pid after the `pid=` at `pos` into `found`, returning where
/// scanning goes on.
fn take_pid(cs: &Vec<char>, pos: usize, found: &mut Vec<u32>) -> (end: usize)
    requires
        pos + 4 <= cs@.len(),
        cs@.skip(pos as int).take(4) == "pid="@,
        dedup(old(found)@) == old(found)@,
    ensures
        pos < end <= cs@.len(),
        dedup(final(found)@) == final(found)@,
        dedup(old(found)@ + pids_in(cs@.skip(pos as int))) == dedup(final(found)@ + pids_in(cs@.skip(end as int))),
{
    let ghost rest = cs@.skip(pos as int);
    let n = cs.len();
    let start = pos + 4;
    let end = scan_digits(cs, start);
    let ghost t = cs@.skip(start as int);
    assert(rest.skip(4) == t);
    let ghost here: Seq<u32> = if end > start && digits_value(t.take(end - start)) <= u32::MAX {
        seq![digits_value(t.take(end - start)) as u32]
    } else {
        Seq::empty()
    };
    assert(pids_in(rest) == here + pids_in(cs@.skip(end as int)));
    let ghost before = found@;
    if end > start {
        match digits_u32(cs, start, end) {
            Some(pid) => {
                push_unique(found, pid);
                proof {
                    lemma_dedup_step(before, pid, pids_in(cs@.skip(end as int)));
                    if !before.contains(pid) {
                        assert(before.push(pid).drop_last() == before);
                        assert(dedup(before.push(pid)) == dedup(before).push(pid));
                    }
                }
            },
            None => {
                assert(before + (here + pids_in(cs@.skip(end as int))) =~= before + pids_in(cs@.skip(end as int)));
            },
        }
    } else {
        assert(before + (here + pids_in(cs@.skip(end as int))) =~= before + pids_in(cs@.skip(end as int)));
    }
    end
}

/// Extract all PIDs from an ss process info string, without repeats.
pub fn extract_pids(info: &str) -> (r: Vec<u32>)
    ensures
        r@ == dedup(pids_in(info@)),
{
    let cs = to_chars(info);
    let pat = pid_literal();
    let mut found: Vec<u32> = Vec::new();
    let mut pos: usize = 0;
    assert(cs@.skip(0) == cs@);
    assert(found@ + pids_in(cs@) == pids_in(cs@));
    assert(dedup(found@) == found@);
    loop
        invariant
            pos <= cs@.len(),
            cs@ == info@,
            pat@ == "pid="@,
            dedup(found@) == found@,
            dedup(pids_in(info@)) == dedup(found@ + pids_in(cs@.skip(pos as int))),
        decreases cs@.len() - pos,
    {
        let ghost rest = cs@.skip(pos as int);
        if cs.len() - pos < 4 {
            assert(pids_in(rest) == Seq::<u32>::empty());
            assert(found@ + Seq::<u32>::empty() == found@);
            return found;
        }
        if crate::text::matches_at(cs.as_slice(), pat.as_slice(), pos) {
            proof {
                reveal_strlit("pid=");
                assert(rest.take(4) =~= cs@.subrange(pos as int, pos + 4));
            }
            pos = take_pid(&cs, pos, &mut found);
        } else {
            proof {
                reveal_strlit("pid=");
                assert(rest.take(4) =~= cs@.subrange(pos as int, pos + 4));
                assert(rest.skip(1) == cs@.skip(pos + 1));
            }
            pos = pos + 1;
        }
    }
}

/// The characters before a digit run's end are digits.
proof fn lemma_digit_run_prefix(t: Seq<char>, k: int)
    requires
        0 <= k < digit_run(t),
    ensures
        is_digit(t[k]),
    decreases k,
{
    lemma_digit_run_bound(t);
    if k > 0 {
        lemma_digit_run_prefix(t.skip(1), k - 1);
        assert(t.skip(1)[k - 1] == t[k]);
    }
}

/// Adding a value already seen does not change the deduplicated list; adding
/// a new one appends it.
proof fn lemma_dedup_step<T>(seen: Seq<T>, x: T, rest: Seq<T>)
    ensures
        seen.contains(x) ==> dedup(seen + (seq![x] + rest)) == dedup(seen + rest),
        !seen.contains(x) ==> dedup(seen + (seq![x] + rest)) == dedup(seen.push(x) + rest),
{
    assert(seen + (seq![x] + rest) =~= seen.push(x) + rest);
    if seen.contains(x) {
        lemma_dedup_skip(seen, x, rest);
    }
}

proof fn lemma_dedup_skip<T>(seen: Seq<T>, x: T, rest: Seq<T>)
    requires
        seen.contains(x),
    ensures
        dedup(seen.push(x) + rest) == dedup(seen + rest),
    decreases rest.len(),
{
    if rest.len() == 0 {
        assert(seen.push(x) + rest =~= seen.push(x));
        assert(seen + rest =~= seen);
        lemma_dedup_contains(seen, x);
        assert(seen.push(x).drop_last() =~= seen);
    } else {
        lemma_dedup_skip(seen, x, rest.drop_last());
        assert((seen.push(x) + rest).drop_last() =~= seen.push(x) + rest.drop_last());
        assert((seen + rest).drop_last() =~= seen + rest.drop_last());
        lemma_dedup_same_elems(seen.push(x) + rest.drop_last(), seen + rest.drop_last());
    }
}

proof fn lemma_dedup_contains<T>(s: Seq<T>, x: T)
    ensures
        dedup(s).contains(x) <==> s.contains(x),
    decreases s.len(),
{
    if s.len() > 0 {
        lemma_dedup_contains(s.drop_last(), x);
        let prev = dedup(s.drop_last());
        if x == s.last() {
            if !prev.contains(x) {
                assert(prev.push(x)[prev.len() as int] == x);
            }
            assert(s[s.len() - 1] == x);
        }
        if prev.push(s.last()).contains(x) && x != s.last() {
            let i = choose|i: int| 0 <= i < prev.push(s.last()).len() && prev.push(s.last())[i] == x;
            assert(prev[i] == x);
        }
        if prev.contains(x) {
            let i = choose|i: int| 0 <= i < prev.len() && prev[i] == x;
            assert(prev.push(s.last())[i] == x);
        }
        if s.contains(x) && x != s.last() {
            let i = choose|i: int| 0 <= i < s.len() && s[i] == x;
            assert(s.drop_last()[i] == x);
        }
        if s.drop_last().contains(x) {
            let i = choose|i: int| 0 <= i < s.drop_last().len() && s.drop_last()[i] == x;
            assert(s[i] == x);
        }
    }
}

proof fn lemma_dedup_same_elems<T>(a: Seq<T>, b: Seq<T>)
    requires
        dedup(a) == dedup(b),
    ensures
        forall|x: T| a.contains(x) <==> b.contains(x),
{
    assert forall|x: T| a.contains(x) <==> b.contains(x) by {
        lemma_dedup_contains(a, x);
        lemma_dedup_contains(b, x);
    }
}

proof fn lemma_digit_run_exact(s: Seq<char>, n: int)
    requires
        0 <= n <= s.len(),
        forall|i: int| 0 <= i < n ==> is_digit(#[trigger] s[i]),
        n == s.len() || !is_digit(s[n]),
    ensures
        digit_run(s) == n,
    decreases n,
{
    if n > 0 {
        assert forall|i: int| 0 <= i < n - 1 implies is_digit(#[trigger] s.skip(1)[i]) by {
            assert(s.skip(1)[i] == s[i + 1]);
        }
        lemma_digit_run_exact(s.skip(1), n - 1);
    }
}


/// The whitespace-separated words of `s` (`str::split_whitespace`), with the
/// word still being read.
pub open spec fn words_scan(s: Seq<char>) -> (Seq<Seq<char>>, Seq<char>)
    decreases s.len(),
{
    if s.len() == 0 {
        (Seq::empty(), Seq::empty())
    } else {
        let prev = words_scan(s.drop_last());
        if is_ws(s.last()) {
            if prev.1.len() > 0 {
                (prev.0.push(prev.1), Seq::empty())
            } else {
                prev
            }
        } else {
            (prev.0, prev.1.push(s.last()))
        }
    }
}

pub open spec fn words(s: Seq<char>) -> Seq<Seq<char>> {
    let w = words_scan(s);
    if w.1.len() > 0 {
        w.0.push(w.1)
    } else {
        w.0
    }
}

pub fn words_of(s: &[char]) -> (r: Vec<Vec<char>>)
    ensures
        r@.len() == words(s@).len(),
        forall|i: int| 0 <= i < r@.len() ==> #[trigger] r@[i]@ == words(s@)[i],
{
    let mut r: Vec<Vec<char>> = Vec::new();
    let mut cur: Vec<char> = Vec::new();
    let mut i: usize = 0;
    assert(s@.take(0) =~= Seq::<char>::empty());
    while i < s.len()
        invariant
            i <= s@.len(),
            r@.len() == words_scan(s@.take(i as int)).0.len(),
            forall|k: int| 0 <= k < r@.len() ==> #[trigger] r@[k]@ == words_scan(s@.take(i as int)).0[k],
            cur@ == words_scan(s@.take(i as int)).1,
        decreases s@.len() - i,
    {
        assert(s@.take(i + 1).drop_last() == s@.take(i as int));
        let c = s[i];
        if is_whitespace(c) {
            if cur.len() > 0 {
                let w = cur;
                r.push(w);
                cur = Vec::new();
            }
        } else {
            cur.push(c);
        }
        i = i + 1;
    }
    assert(s@.take(s@.len() as int) == s@);
    if cur.len() > 0 {
        r.push(cur);
    }
    r
}

/// The text after the last `c` in `s` (all of `s` without one), as
/// `rsplit(c).next()` gives it.
pub open spec fn after_last(s: Seq<char>, c: char) -> Seq<char> {
    match crate::text::last_index_of(s, c) {
        Some(p) => s.skip(p + 1),
        None => s,
    }
}

fn after_last_of(s: &[char], c: char) -> (r: Vec<char>)
    ensures
        r@ == after_last(s@, c),
{
    match rfind_char(s, c) {
        Some(p) => {
            let n = s.len();
            let r = slice_chars(s, p + 1, n);
            assert(r@ == s@.skip(p + 1));
            r
        },
        None => {
            let r = slice_chars(s, 0, s.len());
            assert(r@ == s@.subrange(0, s@.len() as int));
            assert(s@.subrange(0, s@.len() as int) == s@);
            r
        },
    }
}

/// `str::parse::<u16>`.
pub open spec fn parse_u16_text(s: Seq<char>) -> Option<u16> {
    match parse_u64_text(s) {
        Some(v) => if v <= u16::MAX { Some(v as u16) } else { None },
        None => None,
    }
}

fn parse_u16(s: &[char]) -> (r: Option<u16>)
    ensures
        r == parse_u16_text(s@),
{
    match parse_u64(s) {
        Some(v) => if v <= u16::MAX as u64 { Some(v as u16) } else { None },
        None => None,
    }
}

/// A line of `ss -tlnp`: not a header, at least six fields, the local
/// address's port (after its last `:`) and the process ids of the last field.
pub open spec fn ss_line(line: Seq<char>) -> Option<(u16, Seq<u32>)> {
    if has_prefix(line, "State"@) || has_prefix(line, "Recv-Q"@) {
        None
    } else {
        let w = words(line);
        if w.len() < 6 {
            None
        } else {
            match parse_u16_text(after_last(w[3], ':')) {
                Some(p) => Some((p, dedup(pids_in(w.last())))),
                None => None,
            }
        }
    }
}

/// The listening sockets of an `ss -tlnp` output: each parsed line's port and
/// process ids, in order.
pub open spec fn ss_entries(ls: Seq<Seq<char>>) -> Seq<(u16, Seq<u32>)>
    decreases ls.len(),
{
    if ls.len() == 0 {
        Seq::empty()
    } else {
        let prev = ss_entries(ls.drop_last());
        match ss_line(ls.last()) {
            Some(e) => prev.push(e),
            None => prev,
        }
    }
}

fn parse_ss_line(line: &[char]) -> (r: Option<(u16, Vec<u32>)>)
    ensures
        match r {
            Some(e) => ss_line(line@) == Some((e.0, e.1@)),
            None => ss_line(line@) is None,
        },
{
    let state = to_chars("State");
    let recv = to_chars("Recv-Q");
    if crate::text::starts_with(line, state.as_slice()) || crate::text::starts_with(line, recv.as_slice()) {
        return None;
    }
    let w = words_of(line);
    if w.len() < 6 {
        return None;
    }
    let port_text = after_last_of(w[3].as_slice(), ':');
    match parse_u16(port_text.as_slice()) {
        Some(p) => {
            let last = crate::text::string_from_chars(w[w.len() - 1].as_slice());
            let pids = extract_pids(last.as_str());
            Some((p, pids))
        },
        None => None,
    }
}

/// The listening sockets (port and process ids) found in `ss -tlnp` output.
pub fn ss_listeners(output: &str) -> (r: Vec<(u16, Vec<u32>)>)
    ensures
        r@.len() == ss_entries(lines_text(output@)).len(),
        forall|i: int| 0 <= i < r@.len() ==> (#[trigger] r@[i]).0 == ss_entries(lines_text(output@))[i].0
            && r@[i].1@ == ss_entries(lines_text(output@))[i].1,
{
    let cs = to_chars(output);
    let ls = lines(cs.as_slice());
    let ghost lv = lines_text(output@);
    let mut r: Vec<(u16, Vec<u32>)> = Vec::new();
    let mut i: usize = 0;
    while i < ls.len()
        invariant
            i <= ls@.len(),
            ls@.len() == lv.len(),
            forall|k: int| 0 <= k < ls@.len() ==> #[trigger] ls@[k]@ == lv[k],
            r@.len() == ss_entries(lv.take(i as int)).len(),
            forall|k: int| 0 <= k < r@.len() ==> (#[trigger] r@[k]).0 == ss_entries(lv.take(i as int))[k].0
                && r@[k].1@ == ss_entries(lv.take(i as int))[k].1,
        decreases ls@.len() - i,
    {
        assert(lv.take(i + 1).drop_last() == lv.take(i as int));
        assert(lv.take(i + 1).last() == ls@[i as int]@);
        match parse_ss_line(ls[i].as_slice()) {
            Some(e) => {
                r.push(e);
            },
            None => {},
        }
        i = i + 1;
    }
    assert(lv.take(lv.len() as int) == lv);
    r
}

/// Strictly ascending.
pub open spec fn strictly_sorted(v: Seq<u16>) -> bool {
    forall|i: int, j: int| 0 <= i < j < v.len() ==> v[i] < v[j]
}

/// The ports of the groups whose process runs in the project.
pub open spec fn matched_ports(groups: Seq<(bool, Seq<u16>)>) -> Set<u16> {
    Set::new(|p: u16| exists|g: int| 0 <= g < groups.len() && groups[g].0 && groups[g].1.contains(p))
}

pub open spec fn groups_view(groups: Seq<(bool, Vec<u16>)>) -> Seq<(bool, Seq<u16>)> {
    groups.map_values(|g: (bool, Vec<u16>)| (g.0, g.1@))
}

fn sorted_insert(v: &mut Vec<u16>, x: u16)
    requires
        strictly_sorted(old(v)@),
    ensures
        strictly_sorted(final(v)@),
        final(v)@.to_set() == old(v)@.to_set().insert(x),
{
    let mut i: usize = 0;
    while i < v.len() && v[i] < x
        invariant
            i <= v@.len(),
            forall|k: int| 0 <= k < i ==> v@[k] < x,
        decreases v@.len() - i,
    {
        i = i + 1;
    }
    if i < v.len() && v[i] == x {
        assert(v@.to_set() =~= v@.to_set().insert(x)) by {
            assert(v@.to_set().contains(x));
        }
        return;
    }
    let ghost old_v = v@;
    v.insert(i, x);
    proof {
        assert forall|a: int, b: int| 0 <= a < b < v@.len() implies v@[a] < v@[b] by {
            if a < i && b < i {
                assert(v@[a] == old_v[a] && v@[b] == old_v[b]);
            } else if a < i && b == i {
            } else if a < i {
                assert(v@[a] == old_v[a] && v@[b] == old_v[b - 1]);
            } else if a == i {
                assert(v@[b] == old_v[b - 1]);
                assert(old_v[i as int] >= x);
                if b - 1 > i {
                    assert(old_v[i as int] < old_v[b - 1]);
                }
            } else {
                assert(v@[a] == old_v[a - 1] && v@[b] == old_v[b - 1]);
            }
        }
        assert(v@.to_set() =~= old_v.to_set().insert(x)) by {
            assert forall|y: u16| v@.to_set().contains(y) implies old_v.to_set().insert(x).contains(y) by {
                let k = choose|k: int| 0 <= k < v@.len() && v@[k] == y;
                if k < i {
                    assert(old_v[k] == y);
                } else if k > i {
                    assert(old_v[k - 1] == y);
                }
            }
            assert forall|y: u16| old_v.to_set().insert(x).contains(y) implies v@.to_set().contains(y) by {
                if y == x {
                    assert(v@[i as int] == x);
                } else {
                    let k = choose|k: int| 0 <= k < old_v.len() && old_v[k] == y;
                    if k < i {
                        assert(v@[k] == y);
                    } else {
                        assert(v@[k + 1] == y);
                    }
                }
            }
        }
    }
}

proof fn lemma_push_to_set(s: Seq<u16>, x: u16)
    ensures
        s.push(x).to_set() == s.to_set().insert(x),
{
    assert forall|y: u16| #[trigger] s.push(x).to_set().contains(y) <==> s.to_set().insert(x).contains(y) by {
        if s.push(x).to_set().contains(y) {
            let q = choose|q: int| 0 <= q < s.push(x).len() && s.push(x)[q] == y;
            if q < s.len() {
                assert(s[q] == y);
            }
        }
        if s.to_set().contains(y) {
            let q = choose|q: int| 0 <= q < s.len() && s[q] == y;
            assert(s.push(x)[q] == y);
        }
        if y == x {
            assert(s.push(x)[s.len() as int] == x);
        }
    }
    assert(s.push(x).to_set() =~= s.to_set().insert(x));
}

/// The ports of the matched groups, each once, ascending.
pub fn collect_ports(groups: &[(bool, Vec<u16>)]) -> (r: Vec<u16>)
    ensures
        strictly_sorted(r@),
        r@.to_set() == matched_ports(groups_view(groups@)),
{
    let ghost gv = groups_view(groups@);
    let mut r: Vec<u16> = Vec::new();
    let mut g: usize = 0;
    assert(r@.to_set() =~= Set::<u16>::empty());
    while g < groups.len()
        invariant
            g <= groups@.len(),
            gv == groups_view(groups@),
            strictly_sorted(r@),
            r@.to_set() == matched_ports(gv.take(g as int)),
        decreases groups@.len() - g,
    {
        let ghost before = r@.to_set();
        if groups[g].0 {
            let ports = &groups[g].1;
            let mut k: usize = 0;
            while k < ports.len()
                invariant
                    k <= ports@.len(),
                    strictly_sorted(r@),
                    r@.to_set() == before.union(ports@.take(k as int).to_set()),
                decreases ports@.len() - k,
            {
                sorted_insert(&mut r, ports[k]);
                proof {
                    let pv = ports@;
                    let a = pv.take(k + 1);
                    let b = pv.take(k as int);
                    assert(a == b.push(pv[k as int]));
                    lemma_push_to_set(b, pv[k as int]);
                }
                assert(r@.to_set() =~= before.union(ports@.take(k + 1).to_set()));
                k = k + 1;
            }
            assert(ports@.take(ports@.len() as int) == ports@);
        }
        proof {
            assert(gv.take(g + 1) == gv.take(g as int).push(gv[g as int]));
            assert forall|p: u16| r@.to_set().contains(p) <==> matched_ports(gv.take(g + 1)).contains(p) by {
                let t1 = gv.take(g as int);
                let t2 = gv.take(g + 1);
                if matched_ports(t2).contains(p) {
                    let q = choose|q: int| 0 <= q < t2.len() && t2[q].0 && t2[q].1.contains(p);
                    if q < g {
                        assert(t1[q] == t2[q]);
                        assert(matched_ports(t1).contains(p));
                    } else {
                        assert(gv[g as int].1.contains(p));
                    }
                }
                if matched_ports(t1).contains(p) {
                    let q = choose|q: int| 0 <= q < t1.len() && t1[q].0 && t1[q].1.contains(p);
                    assert(t2[q] == t1[q]);
                }
                if groups@[g as int].0 && groups@[g as int].1@.contains(p) {
                    assert(t2[g as int] == gv[g as int]);
                }
            }
            assert(r@.to_set() =~= matched_ports(gv.take(g + 1)));
        }
        g = g + 1;
    }
    assert(gv.take(gv.len() as int) == gv);
    r
}


/// `str::parse::<u32>`.
pub open spec fn parse_u32_text(s: Seq<char>) -> Option<u32> {
    match parse_u64_text(s) {
        Some(v) => if v <= u32::MAX { Some(v as u32) } else { None },
        None => None,
    }
}

pub fn parse_u32(s: &[char]) -> (r: Option<u32>)
    ensures
        r == parse_u32_text(s@),
{
    match parse_u64(s) {
        Some(v) => if v <= u32::MAX as u64 { Some(v as u32) } else { None },
        None => None,
    }
}

/// Reading `lsof -F pcftn` output: the finished process records (process id
/// and listening ports), the current process id and its ports so far.
pub type LsofState = (Seq<(Option<u32>, Seq<u16>)>, Option<u32>, Seq<u16>);

/// One line: `p<pid>` starts a new process record; `n<address>` adds the
/// port after the address's last `:` unless it is a connection (`->`) or
/// already listed; other lines are ignored.
pub open spec fn lsof_step(st: LsofState, line: Seq<char>) -> LsofState {
    if line.len() == 0 {
        st
    } else {
        let v = line.skip(1);
        if line[0] == 'p' {
            (st.0.push((st.1, st.2)), parse_u32_text(v), Seq::empty())
        } else if line[0] == 'n' {
            if has_infix(v, "->"@) {
                st
            } else {
                match parse_u16_text(after_last(v, ':')) {
                    Some(p) => if st.2.contains(p) { st } else { (st.0, st.1, st.2.push(p)) },
                    None => st,
                }
            }
        } else {
            st
        }
    }
}

pub open spec fn lsof_scan(ls: Seq<Seq<char>>) -> LsofState
    decreases ls.len(),
{
    if ls.len() == 0 {
        (Seq::empty(), None, Seq::empty())
    } else {
        lsof_step(lsof_scan(ls.drop_last()), ls.last())
    }
}

/// All process records of the output, the last one included; the record
/// before the first `p` line has no process id.
pub open spec fn lsof_records(output: Seq<char>) -> Seq<(Option<u32>, Seq<u16>)> {
    let s = lsof_scan(lines_text(output));
    s.0.push((s.1, s.2))
}

/// Every non-empty line starts with an ASCII character (the field letter).
pub open spec fn lsof_fields_ascii(output: Seq<char>) -> bool {
    forall|i: int| 0 <= i < lines_text(output).len() && #[trigger] lines_text(output)[i].len() > 0 ==> (lines_text(output)[i][0] as u32) < 0x80
}

pub open spec fn records_view(v: Seq<(Option<u32>, Vec<u16>)>) -> Seq<(Option<u32>, Seq<u16>)> {
    v.map_values(|r: (Option<u32>, Vec<u16>)| (r.0, r.1@))
}

/// The process records of `lsof -i -P -n -F pcftn +D <dir>` output.
pub fn lsof_process_records(output: &str) -> (r: Vec<(Option<u32>, Vec<u16>)>)
    requires
        lsof_fields_ascii(output@),
    ensures
        records_view(r@) == lsof_records(output@),
{
    let cs = to_chars(output);
    let ls = lines(cs.as_slice());
    let ghost lv = lines_text(output@);
    let arrow = to_chars("->");
    let mut done: Vec<(Option<u32>, Vec<u16>)> = Vec::new();
    let mut pid: Option<u32> = None;
    let mut conns: Vec<u16> = Vec::new();
    let mut i: usize = 0;
    assert(records_view(done@) =~= Seq::<(Option<u32>, Seq<u16>)>::empty());
    while i < ls.len()
        invariant
            i <= ls@.len(),
            ls@.len() == lv.len(),
            arrow@ == "->"@,
            forall|k: int| 0 <= k < ls@.len() ==> #[trigger] ls@[k]@ == lv[k],
            lsof_scan(lv.take(i as int)) == (records_view(done@), pid, conns@),
        decreases ls@.len() - i,
    {
        assert(lv.take(i + 1).drop_last() == lv.take(i as int));
        assert(lv.take(i + 1).last() == ls@[i as int]@);
        let line = &ls[i];
        if line.len() > 0 {
            let v = slice_chars(line.as_slice(), 1, line.len());
            assert(v@ == line@.skip(1));
            if line[0] == 'p' {
                let finished = conns;
                let ghost before = done@;
                done.push((pid, finished));
                assert(records_view(done@) == records_view(before).push((pid, finished@)));
                pid = parse_u32(v.as_slice());
                conns = Vec::new();
            } else if line[0] == 'n' {
                if !crate::text::contains(v.as_slice(), arrow.as_slice()) {
                    let port_text = after_last_of(v.as_slice(), ':');
                    match parse_u16(port_text.as_slice()) {
                        Some(p) => {
                            let mut seen = false;
                            let mut k: usize = 0;
                            while k < conns.len()
                                invariant
                                    k <= conns@.len(),
                                    seen <==> exists|q: int| 0 <= q < k && conns@[q] == p,
                                decreases conns@.len() - k,
                            {
                                if conns[k] == p {
                                    seen = true;
                                }
                                k = k + 1;
                            }
                            if !seen {
                                conns.push(p);
                            }
                        },
                        None => {},
                    }
                }
            }
        }
        i = i + 1;
    }
    assert(lv.take(lv.len() as int) == lv);
    let ghost before = done@;
    done.push((pid, conns));
    assert(records_view(done@) == records_view(before).push((pid, conns@)));
    done
}

/// One of the processes (by its working directory) runs in the project:
/// the directory is the project or lies under it.
pub open spec fn runs_in(cwds: Seq<Seq<char>>, project: Seq<char>) -> bool {
    exists|i: int| 0 <= i < cwds.len() && crate::watch::is_under(#[trigger] cwds[i], project)
}

/// A listener group: the working directories of its processes (those that
/// could be read) and the ports it listens on.
pub open spec fn listeners_view(v: Seq<(Vec<String>, Vec<u16>)>) -> Seq<(Seq<Seq<char>>, Seq<u16>)> {
    v.map_values(|l: (Vec<String>, Vec<u16>)| (crate::text::views(l.0@), l.1@))
}

/// Each group marked by whether one of its processes runs in the project.
pub open spec fn project_groups(lv: Seq<(Seq<Seq<char>>, Seq<u16>)>, project: Seq<char>) -> Seq<(bool, Seq<u16>)> {
    lv.map_values(|l: (Seq<Seq<char>>, Seq<u16>)| (runs_in(l.0, project), l.1))
}

/// The ports listened on by a process running in the project.
pub open spec fn project_ports(lv: Seq<(Seq<Seq<char>>, Seq<u16>)>, project: Seq<char>) -> Set<u16> {
    matched_ports(project_groups(lv, project))
}

/// The listener groups a port check reports: those of the `ss` check when it
/// could run, else those of the `lsof` check when it could, else none.
pub open spec fn chosen_listeners(ss: Option<Seq<(Seq<Seq<char>>, Seq<u16>)>>, lsof: Option<Seq<(Seq<Seq<char>>, Seq<u16>)>>) -> Seq<(Seq<Seq<char>>, Seq<u16>)> {
    match ss {
        Some(g) => g,
        None => match lsof {
            Some(g) => g,
            None => Seq::empty(),
        },
    }
}

fn mark_groups(project: &str, listeners: &[(Vec<String>, Vec<u16>)]) -> (r: Vec<(bool, Vec<u16>)>)
    ensures
        groups_view(r@) == project_groups(listeners_view(listeners@), project@),
{
    let roots: Vec<String> = vec![crate::text::owned(project)];
    assert(roots@.len() == 1 && roots@[0]@ == project@);
    let ghost lv = listeners_view(listeners@);
    let mut r: Vec<(bool, Vec<u16>)> = Vec::new();
    let mut i: usize = 0;
    while i < listeners.len()
        invariant
            i <= listeners@.len(),
            lv == listeners_view(listeners@),
            roots@.len() == 1 && roots@[0]@ == project@,
            groups_view(r@) == project_groups(lv.take(i as int), project@),
        decreases listeners@.len() - i,
    {
        let cwds = &listeners[i].0;
        let mut found = false;
        let mut k: usize = 0;
        while k < cwds.len()
            invariant
                k <= cwds@.len(),
                roots@.len() == 1 && roots@[0]@ == project@,
                found == exists|q: int| 0 <= q < k && crate::watch::is_under(#[trigger] cwds@[q]@, project@),
            decreases cwds@.len() - k,
        {
            if crate::watch::is_path_under_any_root(cwds[k].as_str(), roots.as_slice()) {
                found = true;
            }
            k = k + 1;
        }
        proof {
            let cv = crate::text::views(cwds@);
            if found {
                let q = choose|q: int| 0 <= q < cwds@.len() && crate::watch::is_under(#[trigger] cwds@[q]@, project@);
                assert(cv[q] == cwds@[q]@);
            }
            if runs_in(cv, project@) {
                let q = choose|q: int| 0 <= q < cv.len() && crate::watch::is_under(#[trigger] cv[q], project@);
                assert(cv[q] == cwds@[q]@);
            }
            assert(found == runs_in(cv, project@));
        }
        let ghost before = r@;
        r.push((found, listeners[i].1.clone()));
        proof {
            assert(lv.take(i + 1) == lv.take(i as int).push(lv[i as int]));
            assert(groups_view(r@) =~= groups_view(before).push((found, listeners@[i as int].1@)));
            assert(project_groups(lv.take(i + 1), project@) =~= project_groups(lv.take(i as int), project@).push((runs_in(lv[i as int].0, project@), lv[i as int].1)));
        }
        i = i + 1;
    }
    assert(lv.take(listeners@.len() as int) == lv);
    r
}

/// The ports a project listens on, from the listener groups of the `ss` check
/// when it could run, else of the `lsof` check when it could: each port of a
/// group one of whose processes runs in the project, once, ascending; none
/// when neither check could run.
pub fn detect_ports(project: &str, ss: Option<Vec<(Vec<String>, Vec<u16>)>>, lsof: Option<Vec<(Vec<String>, Vec<u16>)>>) -> (r: PortInfo)
    ensures
        strictly_sorted(r.ports@),
        r.ports@.to_set() == project_ports(
            chosen_listeners(
                match ss { Some(g) => Some(listeners_view(g@)), None => None },
                match lsof { Some(g) => Some(listeners_view(g@)), None => None },
            ),
            project@,
        ),
{
    let listeners: Vec<(Vec<String>, Vec<u16>)> = match ss {
        Some(g) => g,
        None => match lsof {
            Some(g) => g,
            None => Vec::new(),
        },
    };
    proof {
        if listeners@.len() == 0 {
            assert(listeners_view(listeners@) =~= Seq::<(Seq<Seq<char>>, Seq<u16>)>::empty());
        }
    }
    let groups = mark_groups(project, listeners.as_slice());
    PortInfo { ports: collect_ports(groups.as_slice()) }
}

/// `:3000, :8080`: each port after a colon, separated by a comma and a space.
pub open spec fn port_list_text(ps: Seq<u16>) -> Seq<char>
    decreases ps.len(),
{
    if ps.len() == 0 {
        Seq::empty()
    } else if ps.len() == 1 {
        ":"@ + crate::text::dec_digits(ps[0] as nat)
    } else {
        port_list_text(ps.drop_last()) + ", :"@ + crate::text::dec_digits(ps.last() as nat)
    }
}

/// The banner's port detail, in cyan; nothing when no port is listened on.
pub open spec fn ports_detail_text(ps: Seq<u16>, colors: bool) -> Option<Seq<char>> {
    if ps.len() == 0 {
        None
    } else {
        Some(crate::banner::paint("\x1b[36m"@, colors) + "🔌 "@ + port_list_text(ps)
            + crate::banner::paint(crate::banner::reset_code(), colors))
    }
}

/// Builds the banner's port detail.
pub fn ports_detail(info: &PortInfo, colors: bool) -> (r: Option<String>)
    ensures
        match r {
            Some(s) => ports_detail_text(info.ports@, colors) == Some(s@),
            None => ports_detail_text(info.ports@, colors) is None,
        },
{
    let n = info.ports.len();
    if n == 0 {
        return None;
    }
    let mut s = String::new();
    crate::text::push_str(&mut s, crate::banner::color("\x1b[36m", colors));
    crate::text::push_str(&mut s, "🔌 ");
    let ghost start = s@;
    let mut i: usize = 0;
    while i < n
        invariant
            i <= n,
            n == info.ports@.len(),
            s@ == start + port_list_text(info.ports@.take(i as int)),
        decreases n - i,
    {
        assert(info.ports@.take(i + 1).drop_last() == info.ports@.take(i as int));
        if i == 0 {
            crate::text::push_str(&mut s, ":");
        } else {
            crate::text::push_str(&mut s, ", :");
        }
        crate::text::push_u64(&mut s, info.ports[i] as u64);
        proof {
            if i == 0 {
                assert(info.ports@.take(1)[0] == info.ports@[0]);
            }
        }
        i = i + 1;
    }
    assert(info.ports@.take(n as int) == info.ports@);
    crate::text::push_str(&mut s, crate::banner::color("\x1b[0m", colors));
    Some(s)
}

} // verus!
