//! Directory comparison: which files only one of two directories holds,
//! which both hold, which of those differ in size, and the report of it.
//!
//! A directory is given as its files: each path relative to the directory,
//! with the file's size, in the order the scan found them.

use vstd::prelude::*;
use crate::float_fmt::{f64_of_ratio, f64_of_ratio_u128, fixed1_text, lemma_p2_64, push_fixed1};
use crate::text::{dec_digits, owned, push_char, push_str, push_u64, str_eq, to_chars, views};

verus! {

/// The size of the first file of `files` whose path is `p`, if there is one.
pub open spec fn lookup_size(files: Seq<(String, u64)>, p: Seq<char>) -> Option<u64>
    decreases files.len(),
{
    if files.len() == 0 {
        None
    } else if files[0].0@ == p {
        Some(files[0].1)
    } else {
        lookup_size(files.drop_first(), p)
    }
}

/// The paths of `a`, in order, that `b` does not hold.
pub open spec fn only_in(a: Seq<(String, u64)>, b: Seq<(String, u64)>) -> Seq<Seq<char>>
    decreases a.len(),
{
    if a.len() == 0 {
        Seq::empty()
    } else {
        let rest = only_in(a.drop_last(), b);
        if lookup_size(b, a.last().0@) is None {
            rest.push(a.last().0@)
        } else {
            rest
        }
    }
}

/// The paths of `a`, in order, that `b` holds too.
pub open spec fn in_both(a: Seq<(String, u64)>, b: Seq<(String, u64)>) -> Seq<Seq<char>>
    decreases a.len(),
{
    if a.len() == 0 {
        Seq::empty()
    } else {
        let rest = in_both(a.drop_last(), b);
        if lookup_size(b, a.last().0@) is Some {
            rest.push(a.last().0@)
        } else {
            rest
        }
    }
}

/// Finds the size of the file at `p`.
pub fn find_size(files: &[(String, u64)], p: &str) -> (r: Option<u64>)
    ensures
        r == lookup_size(files@, p@),
{
    let mut i: usize = 0;
    assert(files@.skip(0) == files@);
    while i < files.len()
        invariant
            i <= files@.len(),
            lookup_size(files@, p@) == lookup_size(files@.skip(i as int), p@),
        decreases files@.len() - i,
    {
        let ghost rest = files@.skip(i as int);
        assert(rest[0] == files@[i as int]);
        assert(rest.drop_first() == files@.skip(i + 1));
        if str_eq(files[i].0.as_str(), p) {
            return Some(files[i].1);
        }
        i = i + 1;
    }
    assert(files@.skip(i as int).len() == 0);
    None
}

/// The two sides of a comparison and what they share.
#[derive(Debug, Clone)]
pub struct DirComparison {
    pub only_in_first: Vec<String>,
    pub only_in_second: Vec<String>,
    pub common: Vec<String>,
}

/// Compares the files of two directories by path: the paths only the first
/// holds and those both hold, in the first's order, and the paths only the
/// second holds, in the second's order.
pub fn compare_dirs(first: &[(String, u64)], second: &[(String, u64)]) -> (r: DirComparison)
    ensures
        views(r.only_in_first@) == only_in(first@, second@),
        views(r.only_in_second@) == only_in(second@, first@),
        views(r.common@) == in_both(first@, second@),
{
    let (only_first, common) = split_by_presence(first, second);
    let (only_second, _) = split_by_presence(second, first);
    DirComparison { only_in_first: only_first, only_in_second: only_second, common }
}

fn split_by_presence(a: &[(String, u64)], b: &[(String, u64)]) -> (r: (Vec<String>, Vec<String>))
    ensures
        views(r.0@) == only_in(a@, b@),
        views(r.1@) == in_both(a@, b@),
{
    let mut only: Vec<String> = Vec::new();
    let mut both: Vec<String> = Vec::new();
    let mut i: usize = 0;
    while i < a.len()
        invariant
            i <= a@.len(),
            views(only@) == only_in(a@.take(i as int), b@),
            views(both@) == in_both(a@.take(i as int), b@),
        decreases a@.len() - i,
    {
        let ghost pre = a@.take(i + 1);
        assert(pre.drop_last() == a@.take(i as int));
        assert(pre.last() == a@[i as int]);
        let p = owned(a[i].0.as_str());
        if find_size(b, a[i].0.as_str()).is_none() {
            only.push(p);
            assert(views(only@) == views(only@).drop_last().push(p@));
        } else {
            both.push(p);
            assert(views(both@) == views(both@).drop_last().push(p@));
        }
        i = i + 1;
    }
    assert(a@.take(a@.len() as int) == a@);
    (only, both)
}

/// The size `format_size` of the comparison prints: bytes below 1 KiB, else
/// one decimal of KB, MB or GB (powers of 1024), from the double nearest to
/// the quotient (for GB: the double nearest to `bytes`, divided by 1024³).
pub open spec fn diff_size_text(bytes: nat) -> Seq<char> {
    if bytes >= 1024 * 1024 * 1024 {
        let q = f64_of_ratio(bytes, 1);
        fixed1_text(q.0, q.1 * (1024 * 1024 * 1024)) + " GB"@
    } else if bytes >= 1024 * 1024 {
        let q = f64_of_ratio(bytes, 1024 * 1024);
        fixed1_text(q.0, q.1) + " MB"@
    } else if bytes >= 1024 {
        let q = f64_of_ratio(bytes, 1024);
        fixed1_text(q.0, q.1) + " KB"@
    } else {
        dec_digits(bytes) + " B"@
    }
}

/// Appends the size text of the comparison report.
pub fn push_diff_size(s: &mut String, bytes: u64)
    ensures
        final(s)@ == old(s)@ + diff_size_text(bytes as nat),
{
    if bytes >= 1024 * 1024 * 1024 {
        proof {
            lemma_p2_64();
        }
        let q = f64_of_ratio_u128(bytes as u128, 1);
        assert(q.1 * (1024 * 1024 * 1024) <= 0x10_0000_0000_0000) by (nonlinear_arith)
            requires
                q.1 <= 0x40_0000,
        ;
        assert(0 < q.1 * (1024 * 1024 * 1024)) by (nonlinear_arith)
            requires
                0 < q.1,
        ;
        push_fixed1(s, q.0, q.1 * (1024 * 1024 * 1024));
        push_str(s, " GB");
    } else if bytes >= 1024 * 1024 {
        let q = f64_of_ratio_u128(bytes as u128, 1024 * 1024);
        push_fixed1(s, q.0, q.1);
        push_str(s, " MB");
    } else if bytes >= 1024 {
        let q = f64_of_ratio_u128(bytes as u128, 1024);
        push_fixed1(s, q.0, q.1);
        push_str(s, " KB");
    } else {
        push_u64(s, bytes);
        push_str(s, " B");
    }
}

/// Appends a line to the report.
fn push_line(r: &mut Vec<String>, s: String)
    ensures
        views(final(r)@) == views(old(r)@).push(s@),
{
    let ghost before = r@;
    r.push(s);
    assert(views(r@) == views(before).push(s@));
}

/// The size of the file at `p` in `files`, or zero where there is none.
pub open spec fn size_or_zero(files: Seq<(String, u64)>, p: Seq<char>) -> nat {
    match lookup_size(files, p) {
        Some(n) => n as nat,
        None => 0,
    }
}

/// The paths of `common`, in order, whose sizes differ between the two sides.
pub open spec fn size_changed(common: Seq<Seq<char>>, first: Seq<(String, u64)>, second: Seq<(String, u64)>) -> Seq<Seq<char>>
    decreases common.len(),
{
    if common.len() == 0 {
        Seq::empty()
    } else {
        let rest = size_changed(common.drop_last(), first, second);
        let p = common.last();
        if size_or_zero(first, p) != size_or_zero(second, p) {
            rest.push(p)
        } else {
            rest
        }
    }
}

/// The first `n` items of a list, or all of them where there are fewer.
pub open spec fn shown(len: nat, n: nat) -> nat {
    if len < n { len } else { n }
}

/// The line for a file only one side holds: `  + path (size)`, the size
/// left out where that side has no such path.
pub open spec fn unique_line(p: Seq<char>, files: Seq<(String, u64)>) -> Seq<char> {
    "  + "@ + p + " ("@ + (match lookup_size(files, p) {
        Some(n) => diff_size_text(n as nat),
        None => Seq::empty(),
    }) + ")"@
}

/// The section for the files only one side holds: a blank line, its title,
/// the first twenty files and a count of the rest; nothing where there are none.
pub open spec fn unique_section(name: Seq<char>, uniq: Seq<Seq<char>>, files: Seq<(String, u64)>) -> Seq<Seq<char>> {
    if uniq.len() == 0 {
        Seq::empty()
    } else {
        seq![Seq::empty(), "📁 Only in "@ + name + ":"@]
            + Seq::new(shown(uniq.len(), 20), |i: int| unique_line(uniq[i], files))
            + (if uniq.len() > 20 {
                seq!["  ... and "@ + dec_digits((uniq.len() - 20) as nat) + " more"@]
            } else {
                Seq::empty()
            })
    }
}

/// The line for a file whose size differs: `  path old → new (+change)`.
pub open spec fn change_line(p: Seq<char>, first: Seq<(String, u64)>, second: Seq<(String, u64)>) -> Seq<char> {
    let s1 = size_or_zero(first, p);
    let s2 = size_or_zero(second, p);
    let d: nat = if s2 >= s1 { (s2 - s1) as nat } else { (s1 - s2) as nat };
    "  "@ + p + " "@ + diff_size_text(s1) + " → "@ + diff_size_text(s2) + " ("@
        + (if s2 > s1 { "+"@ } else { Seq::empty() }) + diff_size_text(d) + ")"@
}

/// The section for the common files whose sizes differ: a blank line, its
/// title and the first ten such files; nothing where there are none.
pub open spec fn change_section(changed: Seq<Seq<char>>, first: Seq<(String, u64)>, second: Seq<(String, u64)>) -> Seq<Seq<char>> {
    if changed.len() == 0 {
        Seq::empty()
    } else {
        seq![Seq::empty(), "📏 Size differences:"@]
            + Seq::new(shown(changed.len(), 10), |i: int| change_line(changed[i], first, second))
    }
}

/// A rule of sixty box-drawing dashes.
pub open spec fn rule_line() -> Seq<char> {
    Seq::new(60, |i: int| '─')
}

/// The head of the report: its title, the two directories, a rule, and the
/// summary of the counts.
pub open spec fn report_head(
    first: Seq<char>,
    second: Seq<char>,
    first_name: Seq<char>,
    second_name: Seq<char>,
    only_first: nat,
    only_second: nat,
    common: nat,
) -> Seq<Seq<char>> {
    seq![
        "🔍 Comparing directories"@,
        "  "@ + first + "  →  "@ + second,
        rule_line(),
        Seq::empty(),
        "📊 SUMMARY"@,
        "  "@ + first_name + " only:     "@ + dec_digits(only_first),
        "  "@ + second_name + " only:     "@ + dec_digits(only_second),
        "  Common:     "@ + dec_digits(common)
    ]
}

/// The lines of the comparison report of two directories, shown as `first`
/// and `second` and named `first_name` and `second_name`.
pub open spec fn comparison_report_text(
    first: Seq<char>,
    second: Seq<char>,
    first_name: Seq<char>,
    second_name: Seq<char>,
    files1: Seq<(String, u64)>,
    files2: Seq<(String, u64)>,
) -> Seq<Seq<char>> {
    let u1 = only_in(files1, files2);
    let u2 = only_in(files2, files1);
    let c = in_both(files1, files2);
    report_head(first, second, first_name, second_name, u1.len(), u2.len(), c.len())
        + unique_section(first_name, u1, files1)
        + unique_section(second_name, u2, files2)
        + change_section(size_changed(c, files1, files2), files1, files2)
        + seq![Seq::empty()]
}

fn unique_line_of(p: &str, files: &[(String, u64)]) -> (r: String)
    ensures
        r@ == unique_line(p@, files@),
{
    let mut s = owned("  + ");
    push_str(&mut s, p);
    push_str(&mut s, " (");
    match find_size(files, p) {
        Some(n) => push_diff_size(&mut s, n),
        None => {},
    }
    push_str(&mut s, ")");
    s
}

fn push_unique_section(r: &mut Vec<String>, name: &str, uniq: &[String], files: &[(String, u64)])
    ensures
        views(final(r)@) == views(old(r)@) + unique_section(name@, views(uniq@), files@),
{
    if uniq.len() == 0 {
        assert(views(r@) == views(r@) + Seq::<Seq<char>>::empty());
        return;
    }
    let ghost u = views(uniq@);
    let ghost start = views(r@);
    push_line(r, String::new());
    let mut title = owned("📁 Only in ");
    push_str(&mut title, name);
    push_str(&mut title, ":");
    push_line(r, title);
    let ghost head = seq![Seq::<char>::empty(), "📁 Only in "@ + name@ + ":"@];
    assert(views(r@) == start + head);
    let n: usize = if uniq.len() < 20 { uniq.len() } else { 20 };
    let mut i: usize = 0;
    while i < n
        invariant
            i <= n,
            n == shown(uniq@.len() as nat, 20),
            u == views(uniq@),
            views(r@) == start + head + Seq::new(i as nat, |k: int| unique_line(u[k], files@)),
        decreases n - i,
    {
        let line = unique_line_of(uniq[i].as_str(), files);
        let ghost before = views(r@);
        push_line(r, line);
        assert(Seq::new((i + 1) as nat, |k: int| unique_line(u[k], files@))
            == Seq::new(i as nat, |k: int| unique_line(u[k], files@)).push(unique_line(u[i as int], files@)));
        i = i + 1;
    }
    if uniq.len() > 20 {
        let mut more = owned("  ... and ");
        push_u64(&mut more, (uniq.len() - 20) as u64);
        push_str(&mut more, " more");
        push_line(r, more);
    } else {
        assert(views(r@) == views(r@) + Seq::<Seq<char>>::empty());
    }
}

fn change_line_of(p: &str, first: &[(String, u64)], second: &[(String, u64)]) -> (r: String)
    ensures
        r@ == change_line(p@, first@, second@),
{
    let s1: u64 = match find_size(first, p) {
        Some(n) => n,
        None => 0,
    };
    let s2: u64 = match find_size(second, p) {
        Some(n) => n,
        None => 0,
    };
    let d: u64 = if s2 >= s1 { s2 - s1 } else { s1 - s2 };
    let mut s = owned("  ");
    push_str(&mut s, p);
    push_str(&mut s, " ");
    push_diff_size(&mut s, s1);
    push_str(&mut s, " → ");
    push_diff_size(&mut s, s2);
    push_str(&mut s, " (");
    if s2 > s1 {
        push_str(&mut s, "+");
    } else {
        assert(s@ == s@ + Seq::<char>::empty());
    }
    push_diff_size(&mut s, d);
    push_str(&mut s, ")");
    s
}

fn size_changed_paths(common: &[String], first: &[(String, u64)], second: &[(String, u64)]) -> (r: Vec<String>)
    ensures
        views(r@) == size_changed(views(common@), first@, second@),
{
    let mut r: Vec<String> = Vec::new();
    let mut i: usize = 0;
    while i < common.len()
        invariant
            i <= common@.len(),
            views(r@) == size_changed(views(common@.take(i as int)), first@, second@),
        decreases common@.len() - i,
    {
        let ghost pre = views(common@.take(i + 1));
        assert(pre.drop_last() == views(common@.take(i as int)));
        assert(pre.last() == common@[i as int]@);
        let s1: u64 = match find_size(first, common[i].as_str()) {
            Some(n) => n,
            None => 0,
        };
        let s2: u64 = match find_size(second, common[i].as_str()) {
            Some(n) => n,
            None => 0,
        };
        if s1 != s2 {
            push_line(&mut r, owned(common[i].as_str()));
        }
        i = i + 1;
    }
    assert(common@.take(common@.len() as int) == common@);
    r
}

fn push_change_section(r: &mut Vec<String>, changed: &[String], first: &[(String, u64)], second: &[(String, u64)])
    ensures
        views(final(r)@) == views(old(r)@) + change_section(views(changed@), first@, second@),
{
    if changed.len() == 0 {
        assert(views(r@) == views(r@) + Seq::<Seq<char>>::empty());
        return;
    }
    let ghost c = views(changed@);
    let ghost start = views(r@);
    push_line(r, String::new());
    push_line(r, owned("📏 Size differences:"));
    let ghost head = seq![Seq::<char>::empty(), "📏 Size differences:"@];
    assert(views(r@) == start + head);
    let n: usize = if changed.len() < 10 { changed.len() } else { 10 };
    let mut i: usize = 0;
    while i < n
        invariant
            i <= n,
            n == shown(changed@.len() as nat, 10),
            c == views(changed@),
            views(r@) == start + head + Seq::new(i as nat, |k: int| change_line(c[k], first@, second@)),
        decreases n - i,
    {
        let line = change_line_of(changed[i].as_str(), first, second);
        push_line(r, line);
        assert(Seq::new((i + 1) as nat, |k: int| change_line(c[k], first@, second@))
            == Seq::new(i as nat, |k: int| change_line(c[k], first@, second@)).push(change_line(c[i as int], first@, second@)));
        i = i + 1;
    }
}

fn rule() -> (r: String)
    ensures
        r@ == rule_line(),
{
    let mut s = String::new();
    let mut i: usize = 0;
    while i < 60
        invariant
            i <= 60,
            s@ == Seq::new(i as nat, |k: int| '─'),
        decreases 60 - i,
    {
        push_char(&mut s, '─');
        assert(Seq::new((i + 1) as nat, |k: int| '─') == Seq::new(i as nat, |k: int| '─').push('─'));
        i = i + 1;
    }
    s
}

fn push_report_head(
    r: &mut Vec<String>,
    first: &str,
    second: &str,
    first_name: &str,
    second_name: &str,
    only_first: usize,
    only_second: usize,
    common: usize,
)
    ensures
        views(final(r)@) == views(old(r)@) + report_head(
            first@,
            second@,
            first_name@,
            second_name@,
            only_first as nat,
            only_second as nat,
            common as nat,
        ),
{
    let ghost start = views(r@);
    push_line(r, owned("🔍 Comparing directories"));
    let mut l = owned("  ");
    push_str(&mut l, first);
    push_str(&mut l, "  →  ");
    push_str(&mut l, second);
    push_line(r, l);
    push_line(r, rule());
    push_line(r, String::new());
    push_line(r, owned("📊 SUMMARY"));
    let mut a = owned("  ");
    push_str(&mut a, first_name);
    push_str(&mut a, " only:     ");
    push_u64(&mut a, only_first as u64);
    push_line(r, a);
    let mut b = owned("  ");
    push_str(&mut b, second_name);
    push_str(&mut b, " only:     ");
    push_u64(&mut b, only_second as u64);
    push_line(r, b);
    let mut c = owned("  Common:     ");
    push_u64(&mut c, common as u64);
    push_line(r, c);
    assert(views(r@) == start + report_head(
        first@,
        second@,
        first_name@,
        second_name@,
        only_first as nat,
        only_second as nat,
        common as nat,
    ));
}

/// The report comparing two directories, shown as `first` and `second` and
/// named `first_name` and `second_name`, from their files.
pub fn comparison_report(
    first: &str,
    second: &str,
    first_name: &str,
    second_name: &str,
    files1: &[(String, u64)],
    files2: &[(String, u64)],
) -> (r: Vec<String>)
    ensures
        views(r@) == comparison_report_text(first@, second@, first_name@, second_name@, files1@, files2@),
{
    let cmp = compare_dirs(files1, files2);
    let mut r: Vec<String> = Vec::new();
    proof {
        assert(views(r@) == Seq::<Seq<char>>::empty());
    }
    push_report_head(
        &mut r,
        first,
        second,
        first_name,
        second_name,
        cmp.only_in_first.len(),
        cmp.only_in_second.len(),
        cmp.common.len(),
    );
    push_unique_section(&mut r, first_name, cmp.only_in_first.as_slice(), files1);
    push_unique_section(&mut r, second_name, cmp.only_in_second.as_slice(), files2);
    let changed = size_changed_paths(cmp.common.as_slice(), files1, files2);
    push_change_section(&mut r, changed.as_slice(), files1, files2);
    push_line(&mut r, String::new());
    r
}

/// Whether the scan of a compared directory reads a directory at `depth`
/// (the compared directory itself is at depth 0): never deeper than 50, and
/// in a shallow scan no deeper than 1.
pub fn scan_reaches(depth: usize, shallow: bool) -> (r: bool)
    ensures
        r == !(depth > 50 || (shallow && depth > 1)),
{
    !(depth > 50 || (shallow && depth > 1))
}

/// Whether the scan counts an entry at the relative path `relative`: not an
/// empty path, and not one that begins with a dot.
pub fn counts_entry(relative: &str) -> (r: bool)
    ensures
        r == (relative@.len() > 0 && relative@[0] != '.'),
{
    let cs = to_chars(relative);
    cs.len() > 0 && cs[0] != '.'
}

} // verus!
