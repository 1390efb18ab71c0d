//! Pieces of the banner: colored fragments, row highlighting, width-aware
//! truncation and the small text formats shown in the header.

use vstd::prelude::*;
use crate::float_fmt::{f64_of_ratio, f64_of_ratio_u128, fixed1_text, push_fixed1};
use crate::git::{FileStatus, GitInfo, status_map, unique_paths};
use crate::text::{
    dec_digits, has_infix, has_prefix, has_suffix, join, join_spec, owned, push_char, push_str,
    push_u64, replace, replace_all, str_eq, take_at_most, to_chars, utf8_len, utf8_len_of, views,
};

verus! {

pub open spec fn reset_code() -> Seq<char> {
    "\x1b[0m"@
}

/// `code` when colors are on, nothing otherwise.
pub open spec fn paint(code: Seq<char>, colors: bool) -> Seq<char> {
    if colors {
        code
    } else {
        Seq::empty()
    }
}

/// The escape sequence `code`, or the empty string when colors are off.
pub fn color(code: &'static str, colors: bool) -> (r: &'static str)
    ensures
        r@ == paint(code@, colors),
{
    if colors {
        code
    } else {
        proof {
            reveal_strlit("");
        }
        ""
    }
}

/// Text of an optional string, empty when absent.
pub open spec fn opt_text(o: Option<String>) -> Seq<char> {
    match o {
        Some(s) => s@,
        None => Seq::empty(),
    }
}

/// The branch tag: `[main]` in bold blue when clean, `[main*]` in yellow when
/// dirty (the bracket inside the same color span), nothing without a branch.
pub open spec fn branch_display_text(branch: Seq<char>, dirty: bool, colors: bool) -> Seq<char> {
    if branch.len() == 0 {
        Seq::empty()
    } else if dirty {
        paint("\x1b[33m"@, colors) + "["@ + branch + "*]"@ + paint(reset_code(), colors)
    } else {
        paint("\x1b[1;34m"@, colors) + "["@ + branch + "]"@ + paint(reset_code(), colors)
    }
}

/// Build git branch display with color (blue if clean, yellow if dirty).
pub fn build_branch_display(git_info: &GitInfo, colors: bool) -> (r: String)
    ensures
        r@ == branch_display_text(opt_text(git_info.branch), git_info.is_dirty, colors),
{
    let mut s = String::new();
    match &git_info.branch {
        None => {
            return s;
        },
        Some(b) => {
            if b.as_str().is_empty() {
                return s;
            }
            if git_info.is_dirty {
                push_str(&mut s, color("\x1b[33m", colors));
                push_str(&mut s, "[");
                push_str(&mut s, b.as_str());
                push_str(&mut s, "*]");
            } else {
                push_str(&mut s, color("\x1b[1;34m", colors));
                push_str(&mut s, "[");
                push_str(&mut s, b.as_str());
                push_str(&mut s, "]");
            }
            push_str(&mut s, color("\x1b[0m", colors));
        },
    }
    s
}

/// One counter of the status line: color, symbol, number, reset.
pub open spec fn counter_text(code: Seq<char>, sym: Seq<char>, n: nat, colors: bool) -> Seq<char> {
    paint(code, colors) + sym + dec_digits(n) + paint(reset_code(), colors)
}

pub open spec fn counter_if(n: nat, code: Seq<char>, sym: Seq<char>, colors: bool) -> Seq<Seq<char>> {
    if n > 0 {
        seq![counter_text(code, sym, n, colors)]
    } else {
        Seq::empty()
    }
}

/// The counters shown for a repository, in order: modified, staged, untracked,
/// ahead, behind; each only when non-zero.
pub open spec fn indicator_parts(g: GitInfo, colors: bool) -> Seq<Seq<char>> {
    counter_if(g.modified as nat, "\x1b[33m"@, "*"@, colors)
        + counter_if(g.staged as nat, "\x1b[32m"@, "+"@, colors)
        + counter_if(g.untracked as nat, "\x1b[2m"@, "?"@, colors)
        + counter_if(g.ahead as nat, "\x1b[36m"@, "\u{2191}"@, colors)
        + counter_if(g.behind as nat, "\x1b[31m"@, "\u{2193}"@, colors)
}

fn push_counter(parts: &mut Vec<String>, n: usize, code: &'static str, sym: &'static str, colors: bool)
    ensures
        final(parts)@.len() == old(parts)@.len() + counter_if(n as nat, code@, sym@, colors).len(),
        views(final(parts)@) == views(old(parts)@) + counter_if(n as nat, code@, sym@, colors),
{
    if n > 0 {
        let mut s = String::new();
        push_str(&mut s, color(code, colors));
        push_str(&mut s, sym);
        push_u64(&mut s, n as u64);
        push_str(&mut s, color("\x1b[0m", colors));
        let ghost before = parts@;
        parts.push(s);
        assert(views(parts@) =~= views(before) + counter_if(n as nat, code@, sym@, colors));
    } else {
        assert(views(parts@) =~= views(parts@) + counter_if(n as nat, code@, sym@, colors));
    }
}

/// Build git status indicators (p10k-style): *modified +staged ?untracked ↑ahead ↓behind
pub fn build_git_status_indicators(git_info: &GitInfo, colors: bool) -> (r: String)
    ensures
        r@ == join_spec(indicator_parts(*git_info, colors), " "@),
{
    let mut parts: Vec<String> = Vec::new();
    assert(views(parts@) =~= Seq::<Seq<char>>::empty());
    push_counter(&mut parts, git_info.modified, "\x1b[33m", "*", colors);
    push_counter(&mut parts, git_info.staged, "\x1b[32m", "+", colors);
    push_counter(&mut parts, git_info.untracked, "\x1b[2m", "?", colors);
    push_counter(&mut parts, git_info.ahead, "\x1b[36m", "\u{2191}", colors);
    push_counter(&mut parts, git_info.behind, "\x1b[31m", "\u{2193}", colors);
    assert(views(parts@) =~= indicator_parts(*git_info, colors));
    join(parts.as_slice(), " ")
}

/// No character of `s` is `c`.
pub open spec fn avoids(s: Seq<char>, c: char) -> bool {
    forall|i: int| 0 <= i < s.len() ==> s[i] != c
}

proof fn lemma_dec_digits_are_digits(n: nat)
    ensures
        forall|i: int| 0 <= i < dec_digits(n).len() ==> '0' <= #[trigger] dec_digits(n)[i] <= '9',
    decreases n,
{
    if n >= 10 {
        lemma_dec_digits_are_digits(n / 10);
        let d = dec_digits(n / 10);
        assert(dec_digits(n) == d.push(crate::text::digit_char(n % 10)));
        assert forall|i: int| 0 <= i < dec_digits(n).len() implies '0' <= #[trigger] dec_digits(n)[i] <= '9' by {
            if i < d.len() {
                assert(dec_digits(n)[i] == d[i]);
            }
        }
    } else {
        assert(dec_digits(n) == seq![crate::text::digit_char(n)]);
    }
}

proof fn lemma_join_avoids(parts: Seq<Seq<char>>, sep: Seq<char>, c: char)
    requires
        avoids(sep, c),
        forall|k: int| 0 <= k < parts.len() ==> avoids(#[trigger] parts[k], c),
    ensures
        avoids(join_spec(parts, sep), c),
    decreases parts.len(),
{
    if parts.len() == 1 {
        assert(avoids(parts[0], c));
    } else if parts.len() > 1 {
        let pd = parts.drop_last();
        assert forall|k: int| 0 <= k < pd.len() implies avoids(#[trigger] pd[k], c) by {
            assert(pd[k] == parts[k]);
        }
        lemma_join_avoids(pd, sep, c);
        assert(avoids(parts[parts.len() - 1], c));
        let j = join_spec(pd, sep);
        assert forall|i: int| 0 <= i < (j + sep + parts.last()).len() implies (j + sep + parts.last())[i] != c by {
            if i < j.len() {
                assert((j + sep + parts.last())[i] == j[i]);
            } else if i < j.len() + sep.len() {
                assert((j + sep + parts.last())[i] == sep[i - j.len()]);
            } else {
                assert((j + sep + parts.last())[i] == parts.last()[i - j.len() - sep.len()]);
            }
        }
    }
}

proof fn lemma_join_holds_part(parts: Seq<Seq<char>>, sep: Seq<char>, k: int)
    requires
        0 <= k < parts.len(),
    ensures
        exists|i: int| crate::text::occurs_at(join_spec(parts, sep), parts[k], i),
    decreases parts.len(),
{
    if parts.len() == 1 {
        assert(join_spec(parts, sep).subrange(0, parts[0].len() as int) =~= parts[0]);
        assert(crate::text::occurs_at(join_spec(parts, sep), parts[k], 0));
    } else {
        let pd = parts.drop_last();
        let j = join_spec(pd, sep);
        let t = j + sep + parts.last();
        assert(join_spec(parts, sep) == t);
        if k == parts.len() - 1 {
            let st: int = (j.len() + sep.len()) as int;
            assert(t.subrange(st, st + parts.last().len()) =~= parts.last());
            assert(crate::text::occurs_at(t, parts[k], st));
        } else {
            assert(pd[k] == parts[k]);
            lemma_join_holds_part(pd, sep, k);
            let i = choose|i: int| crate::text::occurs_at(j, pd[k], i);
            assert(t.subrange(i, i + parts[k].len()) =~= j.subrange(i, i + parts[k].len()));
            assert(crate::text::occurs_at(t, parts[k], i));
        }
    }
}

proof fn lemma_counter_avoids(code: Seq<char>, sym: Seq<char>, n: nat, colors: bool, c: char)
    requires
        avoids(code, c),
        avoids(sym, c),
        !('0' <= c <= '9'),
        c != '\x1b' && c != '[' && c != 'm',
    ensures
        avoids(counter_text(code, sym, n, colors), c),
{
    reveal_strlit("\x1b[0m");
    lemma_dec_digits_are_digits(n);
    let t = counter_text(code, sym, n, colors);
    let pc = paint(code, colors);
    let pr = paint(reset_code(), colors);
    let d = dec_digits(n);
    assert(t == pc + sym + d + pr);
    assert forall|i: int| 0 <= i < t.len() implies t[i] != c by {
        if i < pc.len() {
            assert(t[i] == pc[i]);
        } else if i < pc.len() + sym.len() {
            assert(t[i] == sym[i - pc.len()]);
        } else if i < pc.len() + sym.len() + d.len() {
            assert(t[i] == d[i - pc.len() - sym.len()]);
        } else {
            assert(t[i] == pr[i - pc.len() - sym.len() - d.len()]);
        }
    }
}

proof fn lemma_indicators_avoid(g: GitInfo, colors: bool, c: char, skip_ahead: bool)
    requires
        c == '\u{2191}' || c == '\u{2193}',
        skip_ahead ==> c == '\u{2191}' && g.ahead == 0,
        !skip_ahead ==> c == '\u{2193}' && g.behind == 0,
    ensures
        avoids(join_spec(indicator_parts(g, colors), " "@), c),
{
    reveal_strlit(" ");
    reveal_strlit("\x1b[33m");
    reveal_strlit("\x1b[32m");
    reveal_strlit("\x1b[2m");
    reveal_strlit("\x1b[36m");
    reveal_strlit("\x1b[31m");
    reveal_strlit("*");
    reveal_strlit("+");
    reveal_strlit("?");
    reveal_strlit("\u{2191}");
    reveal_strlit("\u{2193}");
    lemma_counter_avoids("\x1b[33m"@, "*"@, g.modified as nat, colors, c);
    lemma_counter_avoids("\x1b[32m"@, "+"@, g.staged as nat, colors, c);
    lemma_counter_avoids("\x1b[2m"@, "?"@, g.untracked as nat, colors, c);
    if skip_ahead {
        lemma_counter_avoids("\x1b[31m"@, "\u{2193}"@, g.behind as nat, colors, c);
    } else {
        lemma_counter_avoids("\x1b[36m"@, "\u{2191}"@, g.ahead as nat, colors, c);
    }
    let parts = indicator_parts(g, colors);
    assert forall|k: int| 0 <= k < parts.len() implies avoids(#[trigger] parts[k], c) by {
        let a = counter_if(g.modified as nat, "\x1b[33m"@, "*"@, colors);
        let b = counter_if(g.staged as nat, "\x1b[32m"@, "+"@, colors);
        let u = counter_if(g.untracked as nat, "\x1b[2m"@, "?"@, colors);
        let h = counter_if(g.ahead as nat, "\x1b[36m"@, "\u{2191}"@, colors);
        let w = counter_if(g.behind as nat, "\x1b[31m"@, "\u{2193}"@, colors);
        assert(parts == a + b + u + h + w);
        if k < a.len() {
            assert(parts[k] == a[k]);
        } else if k < a.len() + b.len() {
            assert(parts[k] == b[k - a.len()]);
        } else if k < a.len() + b.len() + u.len() {
            assert(parts[k] == u[k - a.len() - b.len()]);
        } else if k < a.len() + b.len() + u.len() + h.len() {
            assert(parts[k] == h[k - a.len() - b.len() - u.len()]);
        } else {
            assert(parts[k] == w[k - a.len() - b.len() - u.len() - h.len()]);
        }
    }
    lemma_join_avoids(parts, " "@, c);
}

proof fn lemma_infix_trans(t: Seq<char>, part: Seq<char>, pat: Seq<char>, i: int, j: int)
    requires
        crate::text::occurs_at(t, part, i),
        crate::text::occurs_at(part, pat, j),
    ensures
        crate::text::occurs_at(t, pat, i + j),
{
    assert forall|q: int| 0 <= q < pat.len() implies t.subrange(i + j, i + j + pat.len())[q] == pat[q] by {
        assert(t.subrange(i, i + part.len())[j + q] == part[j + q]);
        assert(part.subrange(j, j + pat.len())[q] == pat[q]);
    }
    assert(t.subrange(i + j, i + j + pat.len()) =~= pat);
}

proof fn lemma_counter_shows(parts: Seq<Seq<char>>, idx: int, code: Seq<char>, sym: Seq<char>, n: nat, colors: bool)
    requires
        0 <= idx < parts.len(),
        parts[idx] == counter_text(code, sym, n, colors),
    ensures
        crate::text::has_infix(join_spec(parts, " "@), sym + dec_digits(n)),
{
    let t = join_spec(parts, " "@);
    lemma_join_holds_part(parts, " "@, idx);
    let i = choose|i: int| crate::text::occurs_at(t, parts[idx], i);
    let part = parts[idx];
    let pc = paint(code, colors);
    let pat = sym + dec_digits(n);
    assert(part == pc + pat + paint(reset_code(), colors));
    assert(part.subrange(pc.len() as int, (pc.len() + pat.len()) as int) =~= pat);
    lemma_infix_trans(t, part, pat, i, pc.len() as int);
}

/// The status indicators show `↑` with the number of commits ahead exactly
/// when there are any, and `↓` with the number behind exactly when there are
/// any (no arrow otherwise).
pub proof fn ahead_behind_arrows(g: GitInfo, colors: bool)
    ensures
        g.ahead > 0 ==> crate::text::has_infix(join_spec(indicator_parts(g, colors), " "@), "\u{2191}"@ + dec_digits(g.ahead as nat)),
        g.ahead == 0 ==> !crate::text::has_infix(join_spec(indicator_parts(g, colors), " "@), "\u{2191}"@),
        g.behind > 0 ==> crate::text::has_infix(join_spec(indicator_parts(g, colors), " "@), "\u{2193}"@ + dec_digits(g.behind as nat)),
        g.behind == 0 ==> !crate::text::has_infix(join_spec(indicator_parts(g, colors), " "@), "\u{2193}"@),
{
    reveal_strlit("\u{2191}");
    reveal_strlit("\u{2193}");
    let parts = indicator_parts(g, colors);
    let t = join_spec(parts, " "@);
    let a = counter_if(g.modified as nat, "\x1b[33m"@, "*"@, colors);
    let b = counter_if(g.staged as nat, "\x1b[32m"@, "+"@, colors);
    let u = counter_if(g.untracked as nat, "\x1b[2m"@, "?"@, colors);
    let h = counter_if(g.ahead as nat, "\x1b[36m"@, "\u{2191}"@, colors);
    let w = counter_if(g.behind as nat, "\x1b[31m"@, "\u{2193}"@, colors);
    assert(parts == a + b + u + h + w);
    let base: int = (a.len() + b.len() + u.len()) as int;
    if g.ahead > 0 {
        assert(parts[base] == h[0]);
        lemma_counter_shows(parts, base, "\x1b[36m"@, "\u{2191}"@, g.ahead as nat, colors);
    } else {
        lemma_indicators_avoid(g, colors, '\u{2191}', true);
        if crate::text::has_infix(t, "\u{2191}"@) {
            let i = choose|i: int| crate::text::occurs_at(t, "\u{2191}"@, i);
            assert(t.subrange(i, i + 1)[0] == t[i]);
        }
    }
    if g.behind > 0 {
        assert(parts[base + h.len() as int] == w[0]);
        lemma_counter_shows(parts, base + h.len() as int, "\x1b[31m"@, "\u{2193}"@, g.behind as nat, colors);
    } else {
        lemma_indicators_avoid(g, colors, '\u{2193}', false);
        if crate::text::has_infix(t, "\u{2193}"@) {
            let i = choose|i: int| crate::text::occurs_at(t, "\u{2193}"@, i);
            assert(t.subrange(i, i + 1)[0] == t[i]);
        }
    }
}

/// `path` lies inside the directory `dir` (it starts with `dir/`).
pub open spec fn under_dir(path: Seq<char>, dir: Seq<char>) -> bool {
    has_prefix(path, dir.push('/'))
}

/// Some path inside `dir` has status `st`.
pub open spec fn dir_has_status(m: Map<Seq<char>, FileStatus>, dir: Seq<char>, st: FileStatus) -> bool {
    exists|k: Seq<char>| m.contains_key(k) && under_dir(k, dir) && m[k] == st
}

/// `st` is at least as severe as the status of every path inside `dir`.
pub open spec fn dir_status_bound(m: Map<Seq<char>, FileStatus>, dir: Seq<char>, st: FileStatus) -> bool {
    forall|k: Seq<char>| m.contains_key(k) && under_dir(k, dir) ==> m[k].severity_spec() <= st.severity_spec()
}

/// The colored dot shown for a status.
pub open spec fn status_mark(st: FileStatus, colors: bool) -> Seq<char> {
    paint(st.color_spec(), colors) + "\u{25cf}"@ + paint(reset_code(), colors)
}

/// The most severe status of any path inside `dir_name`
/// (Conflict > Deleted > Modified > Added > Renamed > Untracked), as a colored dot.
pub fn aggregate_dir_git_status(file_statuses: &[(String, FileStatus)], dir_name: &str, colors: bool) -> (r: Option<String>)
    requires
        unique_paths(file_statuses@),
    ensures
        r is None <==> forall|k: Seq<char>| status_map(file_statuses@).contains_key(k) ==> !under_dir(k, dir_name@),
        r matches Some(t) ==> exists|st: FileStatus|
            dir_has_status(status_map(file_statuses@), dir_name@, st)
            && dir_status_bound(status_map(file_statuses@), dir_name@, st)
            && t@ == status_mark(st, colors),
{
    let mut prefix = owned(dir_name);
    push_char(&mut prefix, '/');
    let pc = to_chars(prefix.as_str());
    let ghost m = status_map(file_statuses@);
    let mut worst: Option<FileStatus> = None;
    let mut i: usize = 0;
    while i < file_statuses.len()
        invariant
            i <= file_statuses@.len(),
            pc@ == dir_name@.push('/'),
            m == status_map(file_statuses@),
            unique_paths(file_statuses@),
            worst is None ==> forall|j: int| 0 <= j < i ==> !under_dir(#[trigger] file_statuses@[j].0@, dir_name@),
            worst matches Some(w) ==> (exists|j: int| 0 <= j < i && under_dir(file_statuses@[j].0@, dir_name@) && file_statuses@[j].1 == w),
            worst matches Some(w) ==> forall|j: int| 0 <= j < i && under_dir(#[trigger] file_statuses@[j].0@, dir_name@) ==> file_statuses@[j].1.severity_spec() <= w.severity_spec(),
        decreases file_statuses@.len() - i,
    {
        let kc = to_chars(file_statuses[i].0.as_str());
        if crate::text::starts_with(kc.as_slice(), pc.as_slice()) {
            let st = file_statuses[i].1;
            let worse = match worst {
                None => true,
                Some(cur) => st.severity() > cur.severity(),
            };
            if worse {
                worst = Some(st);
            }
        }
        i = i + 1;
    }
    proof {
        assert forall|k: Seq<char>| m.contains_key(k) && under_dir(k, dir_name@) implies
            exists|j: int| 0 <= j < file_statuses@.len() && file_statuses@[j].0@ == k && m[k] == file_statuses@[j].1 by {
            crate::git::lemma_status_map_dom(file_statuses@, k);
            let j = choose|j: int| 0 <= j < file_statuses@.len() && file_statuses@[j].0@ == k;
            crate::git::lemma_status_map_unique(file_statuses@, j);
        }
    }
    match worst {
        None => {
            assert forall|k: Seq<char>| m.contains_key(k) implies !under_dir(k, dir_name@) by {
                if under_dir(k, dir_name@) {
                    let j = choose|j: int| 0 <= j < file_statuses@.len() && file_statuses@[j].0@ == k && m[k] == file_statuses@[j].1;
                    assert(!under_dir(file_statuses@[j].0@, dir_name@));
                }
            }
            None
        },
        Some(w) => {
            let mut s = String::new();
            push_str(&mut s, color(w.color(), colors));
            push_str(&mut s, w.icon());
            push_str(&mut s, color("\x1b[0m", colors));
            proof {
                let j = choose|j: int| 0 <= j < file_statuses@.len() && under_dir(file_statuses@[j].0@, dir_name@) && file_statuses@[j].1 == w;
                crate::git::lemma_status_map_unique(file_statuses@, j);
                let k = file_statuses@[j].0@;
                assert(m.contains_key(k) && under_dir(k, dir_name@) && m[k] == w);
                assert(dir_has_status(m, dir_name@, w));
                assert forall|k2: Seq<char>| m.contains_key(k2) && under_dir(k2, dir_name@) implies m[k2].severity_spec() <= w.severity_spec() by {
                    let j2 = choose|j2: int| 0 <= j2 < file_statuses@.len() && file_statuses@[j2].0@ == k2 && m[k2] == file_statuses@[j2].1;
                    assert(under_dir(file_statuses@[j2].0@, dir_name@));
                }
                assert(s@ == status_mark(w, colors));
                assert(m.contains_key(k) && under_dir(k, dir_name@));
            }
            Some(s)
        },
    }
}

/// 256-color code for a named background; other names are taken as a code already.
pub open spec fn bg_code(name: Seq<char>) -> Seq<char> {
    if name == "green"@ {
        "22"@
    } else if name == "blue"@ {
        "17"@
    } else if name == "red"@ {
        "52"@
    } else if name == "yellow"@ {
        "58"@
    } else if name == "cyan"@ {
        "17"@
    } else if name == "magenta"@ {
        "53"@
    } else if name == "gray"@ || name == "grey"@ {
        "236"@
    } else if name == "dark"@ {
        "235"@
    } else if name == "black"@ {
        "234"@
    } else if name == "light"@ {
        "252"@
    } else {
        name
    }
}

/// `row` with a background (or bold) that is re-applied after every reset.
pub open spec fn highlight_text(row: Seq<char>, bg: Seq<char>, colors: bool) -> Seq<char> {
    let reset = paint(reset_code(), colors);
    if bg.len() == 0 || bg == "none"@ {
        row
    } else if bg == "bold"@ {
        "\x1b[1m"@ + replace_all(row, reset, reset + "\x1b[1m"@) + reset
    } else {
        let start = "\x1b[48;5;"@ + bg_code(bg) + "m"@;
        start + replace_all(row, reset, reset + start) + reset
    }
}

fn bg_code_of(name: &str) -> (r: String)
    ensures
        r@ == bg_code(name@),
{
    if str_eq(name, "green") {
        owned("22")
    } else if str_eq(name, "blue") {
        owned("17")
    } else if str_eq(name, "red") {
        owned("52")
    } else if str_eq(name, "yellow") {
        owned("58")
    } else if str_eq(name, "cyan") {
        owned("17")
    } else if str_eq(name, "magenta") {
        owned("53")
    } else if str_eq(name, "gray") || str_eq(name, "grey") {
        owned("236")
    } else if str_eq(name, "dark") {
        owned("235")
    } else if str_eq(name, "black") {
        owned("234")
    } else if str_eq(name, "light") {
        owned("252")
    } else {
        owned(name)
    }
}

/// Apply a background highlight or bold to an entire row.
/// Uses named colors or "bold" for theme-independent highlighting.
pub fn highlight_row(row: &str, bg_color: &str, colors: bool) -> (r: String)
    ensures
        r@ == highlight_text(row@, bg_color@, colors),
{
    if bg_color.is_empty() || str_eq(bg_color, "none") {
        return owned(row);
    }
    let reset = color("\x1b[0m", colors);
    if str_eq(bg_color, "bold") {
        let mut rep = owned(reset);
        push_str(&mut rep, "\x1b[1m");
        let body = replace(row, reset, rep.as_str());
        let mut s = owned("\x1b[1m");
        push_str(&mut s, body.as_str());
        push_str(&mut s, reset);
        return s;
    }
    let code = bg_code_of(bg_color);
    let mut start = owned("\x1b[48;5;");
    push_str(&mut start, code.as_str());
    push_str(&mut start, "m");
    let mut rep = owned(reset);
    push_str(&mut rep, start.as_str());
    let body = replace(row, reset, rep.as_str());
    let mut s = start;
    push_str(&mut s, body.as_str());
    push_str(&mut s, reset);
    s
}

/// Scanning state of ANSI stripping: text kept so far, and whether an escape
/// sequence is open.
pub open spec fn strip_scan(s: Seq<char>) -> (Seq<char>, bool)
    decreases s.len(),
{
    if s.len() == 0 {
        (Seq::empty(), false)
    } else {
        let prev = strip_scan(s.drop_last());
        let c = s.last();
        if prev.1 {
            (prev.0, c != 'm')
        } else if c == '\x1b' {
            (prev.0, true)
        } else {
            (prev.0.push(c), false)
        }
    }
}

/// `s` without ANSI escape sequences: from each ESC up to and including the
/// next `m` (or the end of the text).
pub open spec fn strip_ansi_text(s: Seq<char>) -> Seq<char> {
    strip_scan(s).0
}

/// Strip ANSI escape codes from a string
pub fn strip_ansi(s: &str) -> (r: String)
    ensures
        r@ == strip_ansi_text(s@),
        forall|i: int| 0 <= i < r@.len() ==> r@[i] != '\x1b',
{
    let cs = to_chars(s);
    let mut out: Vec<char> = Vec::new();
    let mut in_esc = false;
    let mut i: usize = 0;
    while i < cs.len()
        invariant
            cs@ == s@,
            i <= cs@.len(),
            strip_scan(cs@.take(i as int)) == (out@, in_esc),
            forall|k: int| 0 <= k < out@.len() ==> out@[k] != '\x1b',
        decreases cs@.len() - i,
    {
        let c = cs[i];
        assert(cs@.take(i + 1).drop_last() == cs@.take(i as int));
        if in_esc {
            in_esc = c != 'm';
        } else if c == '\x1b' {
            in_esc = true;
        } else {
            out.push(c);
        }
        i = i + 1;
    }
    assert(cs@.take(cs@.len() as int) == cs@);
    crate::text::string_from_chars(out.as_slice())
}

/// Stripping a text that holds no escape character changes nothing.
pub proof fn lemma_strip_ansi_plain(s: Seq<char>)
    requires
        forall|i: int| 0 <= i < s.len() ==> s[i] != '\x1b',
    ensures
        strip_scan(s) == (s, false),
    decreases s.len(),
{
    if s.len() > 0 {
        lemma_strip_ansi_plain(s.drop_last());
        assert(s.drop_last().push(s.last()) == s);
    }
}

/// Stripping twice is stripping once.
pub proof fn strip_ansi_idempotent(s: Seq<char>)
    ensures
        strip_ansi_text(strip_ansi_text(s)) == strip_ansi_text(s),
{
    lemma_strip_ansi_no_escape(s);
    lemma_strip_ansi_plain(strip_ansi_text(s));
}

proof fn lemma_strip_ansi_no_escape(s: Seq<char>)
    ensures
        forall|i: int| 0 <= i < strip_scan(s).0.len() ==> strip_scan(s).0[i] != '\x1b',
    decreases s.len(),
{
    if s.len() > 0 {
        lemma_strip_ansi_no_escape(s.drop_last());
        let prev = strip_scan(s.drop_last());
        let cur = strip_scan(s);
        assert forall|i: int| 0 <= i < cur.0.len() implies cur.0[i] != '\x1b' by {
            if i < prev.0.len() {
                assert(cur.0[i] == prev.0[i]);
            }
        }
    }
}

/// State of fitting details into a width: kept pieces, width used, finished.
pub type FitState = (Seq<Seq<char>>, nat, bool);

/// One step of fitting `d`: it is kept whole if it fits (with ` │ ` before it
/// when something is kept already); otherwise, if more than ten columns remain,
/// its plain text is cut so that it, the separator before it and the `...`
/// appended to it fill at most those columns; either way nothing after it is
/// kept.
pub open spec fn fit_step(st: FitState, d: Seq<char>, available: nat) -> FitState {
    if st.2 {
        st
    } else {
        let plain = strip_ansi_text(d);
        let sep = if st.0.len() == 0 { 0nat } else { 3nat };
        let item_len = utf8_len(plain) + sep;
        if st.1 + item_len <= available {
            (st.0.push(d), st.1 + item_len, false)
        } else {
            let remaining = if available >= st.1 { (available - st.1) as nat } else { 0nat };
            if remaining > 10 {
                (st.0.push(take_at_most(plain, (remaining - sep - 3) as nat) + "..."@), st.1, true)
            } else {
                (st.0, st.1, true)
            }
        }
    }
}

pub open spec fn fit_all(details: Seq<Seq<char>>, available: nat) -> FitState
    decreases details.len(),
{
    if details.len() == 0 {
        (Seq::empty(), 0, false)
    } else {
        fit_step(fit_all(details.drop_last(), available), details.last(), available)
    }
}

/// Columns the pieces take on screen when joined with ` │ `: each piece
/// counted by its characters once colour codes are stripped.
pub open spec fn shown_width(parts: Seq<Seq<char>>) -> nat
    decreases parts.len(),
{
    if parts.len() == 0 {
        0
    } else if parts.len() == 1 {
        strip_ansi_text(parts[0]).len()
    } else {
        shown_width(parts.drop_last()) + 3 + strip_ansi_text(parts.last()).len()
    }
}

pub open spec fn no_escape(s: Seq<char>) -> bool {
    forall|i: int| 0 <= i < s.len() ==> s[i] != '\x1b'
}

proof fn lemma_chars_within_bytes(s: Seq<char>)
    ensures
        s.len() <= utf8_len(s),
    decreases s.len(),
{
    if s.len() > 0 {
        lemma_chars_within_bytes(s.drop_last());
        assert(s.drop_last().push(s.last()) == s);
        crate::text::lemma_encode_utf8_push(s.drop_last(), s.last());
        vstd::utf8::char_is_scalar(s.last());
    }
}

proof fn lemma_fit_all_bound(details: Seq<Seq<char>>, available: nat)
    ensures
        fit_all(details, available).1 <= available,
        shown_width(fit_all(details, available).0) <= (if fit_all(details, available).2 { available } else { fit_all(details, available).1 }),
        (forall|i: int| 0 <= i < details.len() ==> no_escape(#[trigger] details[i])) ==> forall|i: int|
            0 <= i < fit_all(details, available).0.len() ==> no_escape(#[trigger] fit_all(details, available).0[i]),
    decreases details.len(),
{
    if details.len() > 0 {
        let prev_d = details.drop_last();
        lemma_fit_all_bound(prev_d, available);
        let st = fit_all(prev_d, available);
        let d = details.last();
        if !st.2 {
            let plain = strip_ansi_text(d);
            lemma_strip_ansi_no_escape(d);
            let sep = if st.0.len() == 0 { 0nat } else { 3nat };
            let item_len = utf8_len(plain) + sep;
            if st.1 + item_len <= available {
                lemma_chars_within_bytes(plain);
                assert(st.0.push(d).drop_last() == st.0);
            } else {
                let remaining = if available >= st.1 { (available - st.1) as nat } else { 0nat };
                if remaining > 10 {
                    let piece = take_at_most(plain, (remaining - sep - 3) as nat) + "..."@;
                    assert(no_escape(piece)) by {
                        reveal_strlit("...");
                        assert forall|i: int| 0 <= i < piece.len() implies piece[i] != '\x1b' by {
                            if i < take_at_most(plain, (remaining - sep - 3) as nat).len() {
                                assert(piece[i] == plain[i]);
                            }
                        }
                    }
                    lemma_strip_ansi_plain(piece);
                    assert(st.0.push(piece).drop_last() == st.0);
                    reveal_strlit("...");
                }
            }
            if (forall|i: int| 0 <= i < details.len() ==> no_escape(#[trigger] details[i])) {
                assert(no_escape(details[details.len() - 1]));
                assert forall|i: int| 0 <= i < prev_d.len() implies no_escape(#[trigger] prev_d[i]) by {
                    assert(prev_d[i] == details[i]);
                }
            }
        } else {
            if (forall|i: int| 0 <= i < details.len() ==> no_escape(#[trigger] details[i])) {
                assert forall|i: int| 0 <= i < prev_d.len() implies no_escape(#[trigger] prev_d[i]) by {
                    assert(prev_d[i] == details[i]);
                }
            }
        }
    }
}

proof fn lemma_join_width(parts: Seq<Seq<char>>)
    requires
        forall|i: int| 0 <= i < parts.len() ==> no_escape(#[trigger] parts[i]),
    ensures
        join_spec(parts, " \u{2502} "@).len() == shown_width(parts),
    decreases parts.len(),
{
    reveal_strlit(" \u{2502} ");
    if parts.len() == 1 {
        assert(no_escape(parts[0]));
        lemma_strip_ansi_plain(parts[0]);
    } else if parts.len() > 1 {
        let pd = parts.drop_last();
        assert forall|i: int| 0 <= i < pd.len() implies no_escape(#[trigger] pd[i]) by {
            assert(pd[i] == parts[i]);
        }
        lemma_join_width(pd);
        assert(no_escape(parts[parts.len() - 1]));
        lemma_strip_ansi_plain(parts.last());
    }
}

/// Truncate details to fit within available width
pub fn truncate_details(details: &[String], available: usize) -> (r: String)
    ensures
        r@ == join_spec(fit_all(views(details@), available as nat).0, " \u{2502} "@),
        shown_width(fit_all(views(details@), available as nat).0) <= available,
        (forall|i: int| 0 <= i < details@.len() ==> no_escape(#[trigger] details@[i]@)) ==> r@.len() <= available,
{
    let mut kept: Vec<String> = Vec::new();
    let mut current_len: usize = 0;
    let mut done = false;
    let mut i: usize = 0;
    assert(views(details@).take(0) =~= Seq::<Seq<char>>::empty());
    assert(views(kept@) =~= Seq::<Seq<char>>::empty());
    while i < details.len()
        invariant
            i <= details@.len(),
            fit_all(views(details@).take(i as int), available as nat) == (views(kept@), current_len as nat, done),
            current_len <= available,
        decreases details@.len() - i,
    {
        assert(views(details@).take(i + 1).drop_last() == views(details@).take(i as int));
        assert(views(details@).take(i + 1).last() == details@[i as int]@);
        if !done {
            let plain = strip_ansi(details[i].as_str());
            let pc = to_chars(plain.as_str());
            let width = utf8_len_of(pc.as_slice());
            let npc = pc.len();
            assert(width <= 4 * (npc as nat));
            let sep: u128 = if kept.len() == 0 { 0 } else { 3 };
            let item_len: u128 = width + sep;
            if (current_len as u128) + item_len <= available as u128 {
                let ghost before = kept@;
                kept.push(details[i].clone());
                assert(views(kept@) == views(before).push(details@[i as int]@));
                current_len = ((current_len as u128) + item_len) as usize;
            } else {
                let remaining = available - current_len;
                if remaining > 10 {
                    let room: usize = if kept.len() == 0 { remaining - 3 } else { remaining - 6 };
                    let cut = crate::text::take_chars(pc.as_slice(), room);
                    let mut t = crate::text::string_from_chars(cut.as_slice());
                    push_str(&mut t, "...");
                    let ghost before = kept@;
                    kept.push(t);
                    assert(views(kept@) == views(before).push(t@));
                }
                done = true;
            }
        }
        i = i + 1;
    }
    assert(views(details@).take(details@.len() as int) == views(details@));
    proof {
        lemma_fit_all_bound(views(details@), available as nat);
        let pieces = fit_all(views(details@), available as nat).0;
        if forall|i: int| 0 <= i < details@.len() ==> no_escape(#[trigger] details@[i]@) {
            assert forall|i: int| 0 <= i < views(details@).len() implies no_escape(#[trigger] views(details@)[i]) by {
                assert(views(details@)[i] == details@[i]@);
            }
            lemma_join_width(pieces);
        }
    }
    join(kept.as_slice(), " \u{2502} ")
}

/// Compact line count: `983`, `4.2k` (one decimal below ten thousand), `123k`.
pub open spec fn loc_text(loc: nat) -> Seq<char> {
    if loc < 1000 {
        dec_digits(loc)
    } else if loc < 10000 {
        let q = f64_of_ratio(loc, 1000);
        fixed1_text(q.0, q.1) + "k"@
    } else {
        dec_digits(loc / 1000) + "k"@
    }
}

/// Format LOC count compactly (e.g., 4.2k, 1.1k, 983)
pub fn format_loc(loc: usize) -> (r: String)
    ensures
        r@ == loc_text(loc as nat),
{
    let mut s = String::new();
    if loc < 1000 {
        push_u64(&mut s, loc as u64);
    } else if loc < 10000 {
        let q = f64_of_ratio_u128(loc as u128, 1000);
        push_fixed1(&mut s, q.0, q.1);
        push_str(&mut s, "k");
    } else {
        push_u64(&mut s, (loc / 1000) as u64);
        push_str(&mut s, "k");
    }
    s
}

/// How one character of a permission string is shown: `d` blue, `l` magenta,
/// `r` green, `w` yellow, `x s S t T` red, `-` dim, anything else as is.
pub open spec fn perm_piece(c: char, colors: bool) -> Seq<char> {
    let reset = paint(reset_code(), colors);
    if c == 'd' {
        paint("\x1b[1;34m"@, colors) + seq![c] + reset
    } else if c == 'l' {
        paint("\x1b[35m"@, colors) + seq![c] + reset
    } else if c == 'r' {
        paint("\x1b[32m"@, colors) + seq![c] + reset
    } else if c == 'w' {
        paint("\x1b[33m"@, colors) + seq![c] + reset
    } else if c == 'x' || c == 's' || c == 'S' || c == 't' || c == 'T' {
        paint("\x1b[31m"@, colors) + seq![c] + reset
    } else if c == '-' {
        paint("\x1b[2m"@, colors) + seq![c] + reset
    } else {
        seq![c]
    }
}

pub open spec fn perms_text(s: Seq<char>, colors: bool) -> Seq<char>
    decreases s.len(),
{
    if s.len() == 0 {
        Seq::empty()
    } else {
        perms_text(s.drop_last(), colors) + perm_piece(s.last(), colors)
    }
}

proof fn lemma_strip_append(a: Seq<char>, b: Seq<char>)
    requires
        !strip_scan(a).1,
    ensures
        strip_scan(a + b) == (strip_scan(a).0 + strip_scan(b).0, strip_scan(b).1),
    decreases b.len(),
{
    if b.len() == 0 {
        assert(a + b == a);
        assert(strip_scan(a).0 + Seq::<char>::empty() == strip_scan(a).0);
    } else {
        lemma_strip_append(a, b.drop_last());
        assert((a + b).drop_last() == a + b.drop_last());
        assert((a + b).last() == b.last());
        let pb = strip_scan(b.drop_last());
        assert(strip_scan(a).0 + pb.0.push(b.last()) == (strip_scan(a).0 + pb.0).push(b.last()));
    }
}

proof fn lemma_strip_code_prefix(s: Seq<char>, k: int)
    requires
        s.len() >= 2,
        s[0] == '\x1b',
        forall|i: int| 0 < i < s.len() - 1 ==> s[i] != 'm',
        1 <= k < s.len(),
    ensures
        strip_scan(s.take(k)) == (Seq::<char>::empty(), true),
    decreases k,
{
    assert(s.take(k).last() == s[k - 1]);
    if k == 1 {
        assert(s.take(1).drop_last() =~= Seq::<char>::empty());
        assert(strip_scan(Seq::<char>::empty()) == (Seq::<char>::empty(), false));
    } else {
        lemma_strip_code_prefix(s, k - 1);
        assert(s.take(k).drop_last() == s.take(k - 1));
    }
}

/// An escape sequence `ESC ... m` strips to nothing.
proof fn lemma_strip_code(s: Seq<char>)
    requires
        s.len() >= 2,
        s[0] == '\x1b',
        s.last() == 'm',
        forall|i: int| 0 < i < s.len() - 1 ==> s[i] != 'm',
    ensures
        strip_scan(s) == (Seq::<char>::empty(), false),
{
    lemma_strip_code_prefix(s, s.len() - 1);
    assert(s.drop_last() == s.take(s.len() - 1));
}

proof fn lemma_strip_perm_piece(c: char, colors: bool)
    requires
        c != '\x1b',
    ensures
        strip_scan(perm_piece(c, colors)) == (seq![c], false),
{
    reveal_strlit("\x1b[0m");
    reveal_strlit("\x1b[1;34m");
    reveal_strlit("\x1b[35m");
    reveal_strlit("\x1b[32m");
    reveal_strlit("\x1b[33m");
    reveal_strlit("\x1b[31m");
    reveal_strlit("\x1b[2m");
    let single = seq![c];
    assert(strip_scan(single) == (seq![c], false)) by {
        assert(single.drop_last() =~= Seq::<char>::empty());
        assert(strip_scan(Seq::<char>::empty()) == (Seq::<char>::empty(), false));
        assert(single.last() == c);
        assert(Seq::<char>::empty().push(c) =~= seq![c]);
    }
    let code = if c == 'd' {
        "\x1b[1;34m"@
    } else if c == 'l' {
        "\x1b[35m"@
    } else if c == 'r' {
        "\x1b[32m"@
    } else if c == 'w' {
        "\x1b[33m"@
    } else if c == 'x' || c == 's' || c == 'S' || c == 't' || c == 'T' {
        "\x1b[31m"@
    } else {
        "\x1b[2m"@
    };
    let painted = c == 'd' || c == 'l' || c == 'r' || c == 'w' || c == 'x' || c == 's' || c == 'S' || c == 't' || c == 'T' || c == '-';
    if painted {
        if colors {
            lemma_strip_code(code);
            lemma_strip_code(reset_code());
            lemma_strip_append(code, single);
            assert(Seq::<char>::empty() + single == single);
            lemma_strip_append(code + single, reset_code());
            assert(single + Seq::<char>::empty() == single);
            assert(perm_piece(c, colors) == code + single + reset_code());
        } else {
            assert(perm_piece(c, colors) == Seq::<char>::empty() + single + Seq::<char>::empty());
            assert(Seq::<char>::empty() + single + Seq::<char>::empty() == single);
        }
    }
}

/// Stripping the colour codes from the coloured permission text gives the
/// permission text back (for text without escape characters of its own).
pub proof fn perms_text_strips_to_perms(p: Seq<char>, colors: bool)
    requires
        no_escape(p),
    ensures
        strip_ansi_text(perms_text(p, colors)) == p,
        !strip_scan(perms_text(p, colors)).1,
    decreases p.len(),
{
    if p.len() > 0 {
        let pd = p.drop_last();
        assert(no_escape(pd)) by {
            assert forall|i: int| 0 <= i < pd.len() implies pd[i] != '\x1b' by {
                assert(pd[i] == p[i]);
            }
        }
        perms_text_strips_to_perms(pd, colors);
        assert(p.last() == p[p.len() - 1]);
        lemma_strip_perm_piece(p.last(), colors);
        lemma_strip_append(perms_text(pd, colors), perm_piece(p.last(), colors));
        assert(pd + seq![p.last()] == p);
    } else {
        assert(strip_scan(Seq::<char>::empty()) == (Seq::<char>::empty(), false));
    }
}

/// Colorize permission string like exa - each char colored by meaning
pub fn colorize_perms(perms: &str, colors: bool) -> (r: String)
    ensures
        r@ == perms_text(perms@, colors),
{
    let cs = to_chars(perms);
    let mut result = String::new();
    let mut i: usize = 0;
    while i < cs.len()
        invariant
            cs@ == perms@,
            i <= cs@.len(),
            result@ == perms_text(cs@.take(i as int), colors),
        decreases cs@.len() - i,
    {
        let c = cs[i];
        assert(cs@.take(i + 1).drop_last() == cs@.take(i as int));
        let code: Option<&'static str> = if c == 'd' {
            Some("\x1b[1;34m")
        } else if c == 'l' {
            Some("\x1b[35m")
        } else if c == 'r' {
            Some("\x1b[32m")
        } else if c == 'w' {
            Some("\x1b[33m")
        } else if c == 'x' || c == 's' || c == 'S' || c == 't' || c == 'T' {
            Some("\x1b[31m")
        } else if c == '-' {
            Some("\x1b[2m")
        } else {
            None
        };
        match code {
            Some(k) => {
                push_str(&mut result, color(k, colors));
                push_char(&mut result, c);
                push_str(&mut result, color("\x1b[0m", colors));
            },
            None => {
                push_char(&mut result, c);
            },
        }
        assert(result@ == perms_text(cs@.take(i + 1), colors));
        i = i + 1;
    }
    assert(cs@.take(cs@.len() as int) == cs@);
    result
}

/// Whether `name` matches `pattern`: `*x*` contains, `*x` ends with, `x*`
/// starts with, anything else is compared whole.
pub open spec fn glob_matches(pattern: Seq<char>, name: Seq<char>) -> bool {
    if pattern.len() >= 2 && pattern[0] == '*' && pattern.last() == '*' {
        has_infix(name, pattern.subrange(1, pattern.len() - 1))
    } else if pattern.len() >= 1 && pattern[0] == '*' {
        has_suffix(name, pattern.skip(1))
    } else if pattern.len() >= 1 && pattern.last() == '*' {
        has_prefix(name, pattern.take(pattern.len() - 1))
    } else {
        name == pattern
    }
}

/// Simple glob matching for a single pattern against a filename
pub fn glob_match(pattern: &str, name: &str) -> (r: bool)
    ensures
        r == glob_matches(pattern@, name@),
{
    let p = to_chars(pattern);
    let n = to_chars(name);
    let len = p.len();
    if len >= 2 && p[0] == '*' && p[len - 1] == '*' {
        let inner = crate::text::slice_chars(p.as_slice(), 1, len - 1);
        crate::text::contains(n.as_slice(), inner.as_slice())
    } else if len >= 1 && p[0] == '*' {
        let suffix = crate::text::slice_chars(p.as_slice(), 1, len);
        assert(suffix@ == p@.skip(1));
        crate::text::ends_with(n.as_slice(), suffix.as_slice())
    } else if len >= 1 && p[len - 1] == '*' {
        let prefix = crate::text::slice_chars(p.as_slice(), 0, len - 1);
        assert(prefix@ == p@.take(len - 1));
        crate::text::starts_with(n.as_slice(), prefix.as_slice())
    } else {
        crate::text::chars_eq(n.as_slice(), p.as_slice())
    }
}

} // verus!
