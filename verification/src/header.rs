//! The banner's header: the path as shown, the git row, the row of details
//! (sizes, counts, insights, build and test results), how the rows are
//! combined to fit the terminal, and the columns a listing shows.

use vstd::prelude::*;
use crate::banner::{branch_display_text, build_branch_display, build_git_status_indicators, format_loc, indicator_parts, loc_text, paint, reset_code, strip_ansi, strip_ansi_text, truncate_details, fit_all};
use crate::build_status::BuildStatus;
use crate::fs::{format_size_compact, size_compact_text};
use crate::git::GitInfo;
use crate::insights::{pairs_view, CodeMetrics, TodoInfo};
use crate::parse::{lines, lines_text, split_chars, split_text, trim, trim_text};
use crate::test_cache::{ago_text, duration_text, format_age, TestResults};
use crate::text::{dec_digits, has_prefix, join, join_spec, owned, push_str, push_u64, str_eq, string_from_chars, to_chars, utf8_len, utf8_len_of, views};

verus! {

/// The path as the header shows it: below the home directory as `~` plus
/// the rest (`~` alone for the home itself), other paths unchanged.
pub open spec fn path_display_text(path: Seq<char>, home: Seq<char>) -> Seq<char> {
    if has_prefix(path, home) {
        let rel = path.skip(home.len() as int);
        if rel.len() == 0 || rel == "/"@ {
            "~"@
        } else {
            "~"@ + rel
        }
    } else {
        path
    }
}

/// Shows a path relative to the home directory.
pub fn path_display(path: &str, home: &str) -> (r: String)
    ensures
        r@ == path_display_text(path@, home@),
{
    let p = to_chars(path);
    let h = to_chars(home);
    if crate::text::starts_with(p.as_slice(), h.as_slice()) {
        let rel = crate::text::slice_chars(p.as_slice(), h.len(), p.len());
        assert(rel@ == path@.skip(home@.len() as int));
        let slash = to_chars("/");
        if rel.len() == 0 || crate::text::chars_eq(rel.as_slice(), slash.as_slice()) {
            owned("~")
        } else {
            let mut s = owned("~");
            push_str(&mut s, string_from_chars(rel.as_slice()).as_str());
            s
        }
    } else {
        owned(path)
    }
}

/// `[text]` when `cond` holds, nothing otherwise.
pub open spec fn piece(cond: bool, text: Seq<char>) -> Seq<Seq<char>> {
    if cond {
        seq![text]
    } else {
        Seq::empty()
    }
}

/// The repository is clean: not dirty and no counts.
pub open spec fn is_clean(g: GitInfo) -> bool {
    !g.is_dirty && g.modified == 0 && g.staged == 0 && g.untracked == 0
}

/// The git status pieces: the counters, the stash count, the merge state
/// and, for a clean repository, a clean mark.
pub open spec fn status_parts(g: GitInfo, colors: bool) -> Seq<Seq<char>> {
    indicator_parts(g, colors)
        + piece(g.stash_count > 0, paint("\x1b[35m"@, colors) + "≡"@ + dec_digits(g.stash_count as nat) + paint(reset_code(), colors))
        + (match g.merge_state {
            Some(m) => seq![paint("\x1b[31m"@, colors) + m@ + paint(reset_code(), colors)],
            None => Seq::empty(),
        })
        + piece(is_clean(g), paint("\x1b[32m"@, colors) + "✓ clean"@ + paint(reset_code(), colors))
}

fn push_seq(parts: &mut Vec<String>, s: String)
    ensures
        views(final(parts)@) == views(old(parts)@).push(s@),
{
    let ghost before = parts@;
    parts.push(s);
    assert(views(parts@) =~= views(before).push(s@));
}

fn push_as(parts: &mut Vec<String>, s: String, Ghost(t): Ghost<Seq<char>>)
    requires
        s@ =~= t,
    ensures
        views(final(parts)@) == views(old(parts)@).push(t),
{
    push_seq(parts, s);
}

fn colored(code: &'static str, body: &str, colors: bool) -> (r: String)
    ensures
        r@ == paint(code@, colors) + body@ + paint(reset_code(), colors),
{
    let mut s = owned(crate::banner::color(code, colors));
    push_str(&mut s, body);
    push_str(&mut s, crate::banner::color("\x1b[0m", colors));
    s
}

fn number_then(n: u64, tail: &str) -> (r: String)
    ensures
        r@ == dec_digits(n as nat) + tail@,
{
    let mut s = String::new();
    push_u64(&mut s, n);
    push_str(&mut s, tail);
    s
}

fn text_number(head: &str, n: u64) -> (r: String)
    ensures
        r@ == head@ + dec_digits(n as nat),
{
    let mut s = owned(head);
    push_u64(&mut s, n);
    s
}

fn text_then_number(head: &str, n: u64, tail: &str) -> (r: String)
    ensures
        r@ == head@ + dec_digits(n as nat) + tail@,
{
    let mut s = owned(head);
    push_u64(&mut s, n);
    push_str(&mut s, tail);
    s
}

/// The git status text: its pieces separated by spaces.
pub fn git_status_text(g: &GitInfo, colors: bool) -> (r: String)
    ensures
        r@ == join_spec(status_parts(*g, colors), " "@),
{
    let mut parts: Vec<String> = Vec::new();
    push_counter_parts(&mut parts, g, colors);
    if g.stash_count > 0 {
        push_as(&mut parts, colored("\x1b[35m", text_number("≡", g.stash_count as u64).as_str(), colors),
            Ghost(paint("\x1b[35m"@, colors) + "≡"@ + dec_digits(g.stash_count as nat) + paint(reset_code(), colors)));
    }
    match &g.merge_state {
        Some(m) => push_seq(&mut parts, colored("\x1b[31m", m.as_str(), colors)),
        None => {},
    }
    if !g.is_dirty && g.modified == 0 && g.staged == 0 && g.untracked == 0 {
        push_seq(&mut parts, colored("\x1b[32m", "✓ clean", colors));
    }
    assert(views(parts@) =~= status_parts(*g, colors));
    join(parts.as_slice(), " ")
}

fn push_counter_parts(parts: &mut Vec<String>, g: &GitInfo, colors: bool)
    requires
        old(parts)@.len() == 0,
    ensures
        views(final(parts)@) == indicator_parts(*g, colors),
{
    push_counter(parts, g.modified as u64, "\x1b[33m", "*", colors);
    push_counter(parts, g.staged as u64, "\x1b[32m", "+", colors);
    push_counter(parts, g.untracked as u64, "\x1b[2m", "?", colors);
    push_counter(parts, g.ahead as u64, "\x1b[36m", "\u{2191}", colors);
    push_counter(parts, g.behind as u64, "\x1b[31m", "\u{2193}", colors);
    assert(views(parts@) =~= indicator_parts(*g, colors));
}

fn push_counter(parts: &mut Vec<String>, n: u64, code: &'static str, sym: &'static str, colors: bool)
    ensures
        views(final(parts)@) == views(old(parts)@) + crate::banner::counter_if(n as nat, code@, sym@, colors),
{
    if n > 0 {
        let body = text_number(sym, n);
        push_as(parts, colored(code, body.as_str(), colors), Ghost(crate::banner::counter_text(code@, sym@, n as nat, colors)));
    } else {
        assert(views(parts@) =~= views(parts@) + crate::banner::counter_if(n as nat, code@, sym@, colors));
    }
}

/// The first header row of a repository: the path, the branch (bold), the
/// tag, the status, the age of the last commit (at `now`), today's commits
/// and the diff counts, separated by ` │ `.
pub open spec fn repo_row_parts(path_display: Seq<char>, g: GitInfo, now: i64, colors: bool) -> Seq<Seq<char>> {
    repo_row_head(path_display, g, colors) + repo_row_tail(g, now, colors)
}

/// The path, branch, tag and status pieces of the repository row.
pub open spec fn repo_row_head(path_display: Seq<char>, g: GitInfo, colors: bool) -> Seq<Seq<char>> {
    let bd = branch_display_text(crate::banner::opt_text(g.branch), g.is_dirty, colors);
    let st = join_spec(status_parts(g, colors), " "@);
    seq![path_display]
        + piece(bd.len() > 0, paint("\x1b[1m"@, colors) + bd + paint(reset_code(), colors))
        + (match g.tag {
            Some(t) => seq![paint("\x1b[33m"@, colors) + t@ + paint(reset_code(), colors)],
            None => Seq::empty(),
        })
        + piece(st.len() > 0, st)
}

/// The commit-age, today and diff pieces of the repository row.
pub open spec fn repo_row_tail(g: GitInfo, now: i64, colors: bool) -> Seq<Seq<char>> {
    (match g.last_commit_time {
        Some(t) => seq![ago_text(now - t)],
        None => Seq::empty(),
    })
        + piece(g.commits_today > 0, dec_digits(g.commits_today as nat) + " today"@)
        + piece(g.lines_added > 0 || g.lines_deleted > 0,
            paint("\x1b[32m"@, colors) + "+"@ + dec_digits(g.lines_added as nat) + paint(reset_code(), colors) + " "@
            + paint("\x1b[31m"@, colors) + "-"@ + dec_digits(g.lines_deleted as nat) + paint(reset_code(), colors))
}

fn repo_head(path_display: &str, g: &GitInfo, colors: bool) -> (r: Vec<String>)
    ensures
        views(r@) == repo_row_head(path_display@, *g, colors),
{
    let mut parts: Vec<String> = Vec::new();
    push_seq(&mut parts, owned(path_display));
    let bd = build_branch_display(g, colors);
    if !bd.as_str().is_empty() {
        push_seq(&mut parts, colored("\x1b[1m", bd.as_str(), colors));
    }
    match &g.tag {
        Some(t) => push_seq(&mut parts, colored("\x1b[33m", t.as_str(), colors)),
        None => {},
    }
    let st = git_status_text(g, colors);
    if !st.as_str().is_empty() {
        push_seq(&mut parts, st);
    }
    assert(views(parts@) =~= repo_row_head(path_display@, *g, colors));
    parts
}

fn repo_tail(parts: &mut Vec<String>, g: &GitInfo, now: i64, colors: bool)
    ensures
        views(final(parts)@) == views(old(parts)@) + repo_row_tail(*g, now, colors),
{
    let ghost start = views(parts@);
    match g.last_commit_time {
        Some(t) => push_seq(parts, format_age(now, t)),
        None => {},
    }
    let ghost mid = views(parts@);
    if g.commits_today > 0 {
        push_seq(parts, number_then(g.commits_today as u64, " today"));
    }
    let ghost mid2 = views(parts@);
    if g.lines_added > 0 || g.lines_deleted > 0 {
        let mut s = colored("\x1b[32m", text_number("+", g.lines_added as u64).as_str(), colors);
        push_str(&mut s, " ");
        push_str(&mut s, colored("\x1b[31m", text_number("-", g.lines_deleted as u64).as_str(), colors).as_str());
        push_as(parts, s, Ghost(paint("\x1b[32m"@, colors) + "+"@ + dec_digits(g.lines_added as nat) + paint(reset_code(), colors) + " "@
            + paint("\x1b[31m"@, colors) + "-"@ + dec_digits(g.lines_deleted as nat) + paint(reset_code(), colors)));
    }
    assert(views(parts@) =~= start + repo_row_tail(*g, now, colors));
}

/// Builds the first header row of a repository.
pub fn repo_row(path_display: &str, g: &GitInfo, now: i64, colors: bool) -> (r: String)
    ensures
        r@ == join_spec(repo_row_parts(path_display@, *g, now, colors), " │ "@),
{
    let mut parts = repo_head(path_display, g, colors);
    repo_tail(&mut parts, g, now, colors);
    join(parts.as_slice(), " │ ")
}

/// The first header row outside a repository: the path (then bold), the
/// project label, the size, the file and directory counts, and the number
/// of hidden entries when there are some, separated by spaces.
pub open spec fn plain_row_parts(path_display: Seq<char>, label: Seq<char>, total_size: u64, files: usize, dirs: usize, hidden: usize, colors: bool) -> Seq<Seq<char>> {
    seq![
        path_display + paint("\x1b[1m"@, colors),
        label + " │"@,
        paint("\x1b[36m"@, colors) + "💾 "@ + size_compact_text(total_size as nat) + paint(reset_code(), colors) + " │"@,
        paint("\x1b[2m"@, colors) + "📄 "@ + dec_digits(files as nat) + " files"@ + paint(reset_code(), colors) + " │"@,
        paint("\x1b[2m"@, colors) + "📂 "@ + dec_digits(dirs as nat) + " dirs"@ + paint(reset_code(), colors)
    ] + piece(hidden > 0, "│ "@ + dec_digits(hidden as nat) + " hidden"@)
}

/// Builds the first header row outside a repository.
pub fn plain_row(path_display: &str, label: &str, total_size: u64, files: usize, dirs: usize, hidden: usize, colors: bool) -> (r: String)
    ensures
        r@ == join_spec(plain_row_parts(path_display@, label@, total_size, files, dirs, hidden, colors), " "@),
{
    let mut parts: Vec<String> = Vec::new();
    let mut a = owned(path_display);
    push_str(&mut a, crate::banner::color("\x1b[1m", colors));
    push_seq(&mut parts, a);
    let mut b = owned(label);
    push_str(&mut b, " │");
    push_seq(&mut parts, b);
    let mut size_body = owned("💾 ");
    push_str(&mut size_body, format_size_compact(total_size).as_str());
    let mut c = colored("\x1b[36m", size_body.as_str(), colors);
    push_str(&mut c, " │");
    push_as(&mut parts, c, Ghost(paint("\x1b[36m"@, colors) + "💾 "@ + size_compact_text(total_size as nat) + paint(reset_code(), colors) + " │"@));
    let mut d = colored("\x1b[2m", text_then_number("📄 ", files as u64, " files").as_str(), colors);
    push_str(&mut d, " │");
    push_as(&mut parts, d, Ghost(paint("\x1b[2m"@, colors) + "📄 "@ + dec_digits(files as nat) + " files"@ + paint(reset_code(), colors) + " │"@));
    push_as(&mut parts, colored("\x1b[2m", text_then_number("📂 ", dirs as u64, " dirs").as_str(), colors),
        Ghost(paint("\x1b[2m"@, colors) + "📂 "@ + dec_digits(dirs as nat) + " dirs"@ + paint(reset_code(), colors)));
    if hidden > 0 {
        push_seq(&mut parts, text_then_number("│ ", hidden as u64, " hidden"));
    }
    assert(views(parts@) =~= plain_row_parts(path_display@, label@, total_size, files, dirs, hidden, colors));
    join(parts.as_slice(), " ")
}

/// The build detail: a green "builds" with the duration when there is one,
/// or red "build errors" with the error count when it is asked for and
/// nonzero.
pub open spec fn build_detail_text(b: BuildStatus, duration_ms: u64, with_count: bool, colors: bool) -> Seq<char> {
    if b.ok {
        paint("\x1b[32m"@, colors) + "✓ builds"@
            + (if duration_ms > 0 { " ("@ + duration_text(duration_ms as nat) + ")"@ } else { Seq::empty() })
            + paint(reset_code(), colors)
    } else {
        paint("\x1b[31m"@, colors) + "✗ build errors"@
            + (if with_count && b.errors > 0 { " ("@ + dec_digits(b.errors as nat) + " err)"@ } else { Seq::empty() })
            + paint(reset_code(), colors)
    }
}

/// Builds the build detail; `duration_ms` is how long the check took (zero
/// when unknown).
pub fn build_detail(b: &BuildStatus, duration_ms: u64, with_count: bool, colors: bool) -> (r: String)
    ensures
        r@ == build_detail_text(*b, duration_ms, with_count, colors),
{
    if b.ok {
        let mut body = owned("✓ builds");
        if duration_ms > 0 {
            push_str(&mut body, " (");
            push_str(&mut body, crate::test_cache::format_ms(duration_ms).as_str());
            push_str(&mut body, ")");
        }
        colored("\x1b[32m", body.as_str(), colors)
    } else {
        let mut body = owned("✗ build errors");
        if with_count && b.errors > 0 {
            push_str(&mut body, text_then_number(" (", b.errors as u64, " err)").as_str());
        }
        colored("\x1b[31m", body.as_str(), colors)
    }
}

/// The test-results detail: failures in red, else the passed count in green
/// with how long ago the run was (at `now`); nothing without either.
pub open spec fn tests_detail_text(t: TestResults, now: i64, colors: bool) -> Option<Seq<char>> {
    if t.failed > 0 {
        Some(paint("\x1b[31m"@, colors) + "✗ "@ + dec_digits(t.failed as nat) + " failed"@ + paint(reset_code(), colors))
    } else if t.passed > 0 {
        Some(paint("\x1b[32m"@, colors) + "✓ "@ + dec_digits(t.passed as nat) + " tests"@ + paint(reset_code(), colors)
            + " ("@ + ago_text(now - t.timestamp) + ")"@)
    } else {
        None
    }
}

/// Builds the test-results detail.
pub fn tests_detail(t: &TestResults, now: i64, colors: bool) -> (r: Option<String>)
    ensures
        match r {
            Some(s) => tests_detail_text(*t, now, colors) == Some(s@),
            None => tests_detail_text(*t, now, colors) is None,
        },
{
    if t.failed > 0 {
        Some(colored("\x1b[31m", text_then_number("✗ ", t.failed as u64, " failed").as_str(), colors))
    } else if t.passed > 0 {
        let mut s = colored("\x1b[32m", text_then_number("✓ ", t.passed as u64, " tests").as_str(), colors);
        push_str(&mut s, " (");
        push_str(&mut s, format_age(now, t.timestamp).as_str());
        push_str(&mut s, ")");
        Some(s)
    } else {
        None
    }
}

/// The language name shown for an extension (the extension itself when
/// none is known).
pub open spec fn language_name_text(ext: Seq<char>) -> Seq<char> {
    if ext == "rs"@ {
        "Rust"@
    } else if ext == "md"@ || ext == "mdx"@ {
        "Markdown"@
    } else if ext == "sh"@ || ext == "bash"@ {
        "Shell"@
    } else if ext == "py"@ {
        "Python"@
    } else if ext == "js"@ || ext == "mjs"@ {
        "JavaScript"@
    } else if ext == "ts"@ || ext == "tsx"@ {
        "TypeScript"@
    } else if ext == "go"@ {
        "Go"@
    } else if ext == "c"@ || ext == "h"@ {
        "C"@
    } else if ext == "cpp"@ || ext == "cc"@ || ext == "cxx"@ || ext == "hpp"@ {
        "C++"@
    } else if ext == "java"@ {
        "Java"@
    } else if ext == "rb"@ {
        "Ruby"@
    } else if ext == "toml"@ {
        "TOML"@
    } else if ext == "yaml"@ || ext == "yml"@ {
        "YAML"@
    } else if ext == "json"@ {
        "JSON"@
    } else if ext == "html"@ || ext == "htm"@ {
        "HTML"@
    } else if ext == "css"@ {
        "CSS"@
    } else if ext == "sql"@ {
        "SQL"@
    } else if ext == "vim"@ {
        "VimL"@
    } else if ext == "el"@ {
        "Emacs Lisp"@
    } else {
        ext
    }
}

/// Names the language of an extension.
pub fn language_name(ext: &str) -> (r: String)
    ensures
        r@ == language_name_text(ext@),
{
    let s = if str_eq(ext, "rs") {
        "Rust"
    } else if str_eq(ext, "md") || str_eq(ext, "mdx") {
        "Markdown"
    } else if str_eq(ext, "sh") || str_eq(ext, "bash") {
        "Shell"
    } else if str_eq(ext, "py") {
        "Python"
    } else if str_eq(ext, "js") || str_eq(ext, "mjs") {
        "JavaScript"
    } else if str_eq(ext, "ts") || str_eq(ext, "tsx") {
        "TypeScript"
    } else if str_eq(ext, "go") {
        "Go"
    } else if str_eq(ext, "c") || str_eq(ext, "h") {
        "C"
    } else if str_eq(ext, "cpp") || str_eq(ext, "cc") || str_eq(ext, "cxx") || str_eq(ext, "hpp") {
        "C++"
    } else if str_eq(ext, "java") {
        "Java"
    } else if str_eq(ext, "rb") {
        "Ruby"
    } else if str_eq(ext, "toml") {
        "TOML"
    } else if str_eq(ext, "yaml") || str_eq(ext, "yml") {
        "YAML"
    } else if str_eq(ext, "json") {
        "JSON"
    } else if str_eq(ext, "html") || str_eq(ext, "htm") {
        "HTML"
    } else if str_eq(ext, "css") {
        "CSS"
    } else if str_eq(ext, "sql") {
        "SQL"
    } else if str_eq(ext, "vim") {
        "VimL"
    } else if str_eq(ext, "el") {
        "Emacs Lisp"
    } else {
        return owned(ext);
    };
    owned(s)
}

/// What `char::is_numeric` says of `c` (Unicode's numeric categories).
pub uninterp spec fn unicode_numeric(c: char) -> bool;

/// Whether `c` is numeric, by `char::is_numeric`.
#[verifier::external_body]
fn is_numeric_char(c: char) -> (r: bool)
    ensures
        r == unicode_numeric(c),
{
    c.is_numeric()
}

/// An extension that names a language: not empty, not `no-ext`, and not
/// made of numerals only (as manual-page sections are).
pub open spec fn language_ext(ext: Seq<char>) -> bool {
    ext.len() > 0 && ext != "no-ext"@ && !(forall|i: int| 0 <= i < ext.len() ==> unicode_numeric(#[trigger] ext[i]))
}

/// The first `n` entries whose extension names a language.
pub open spec fn language_pick(t: Seq<(Seq<char>, nat)>, n: nat) -> Seq<(Seq<char>, nat)>
    decreases t.len(),
{
    if t.len() == 0 || n == 0 {
        Seq::empty()
    } else if language_ext(t[0].0) {
        seq![t[0]] + language_pick(t.skip(1), (n - 1) as nat)
    } else {
        language_pick(t.skip(1), n)
    }
}

fn all_numeric(cs: &[char]) -> (r: bool)
    ensures
        r == forall|i: int| 0 <= i < cs@.len() ==> unicode_numeric(#[trigger] cs@[i]),
{
    let mut i: usize = 0;
    while i < cs.len()
        invariant
            i <= cs@.len(),
            forall|j: int| 0 <= j < i ==> unicode_numeric(#[trigger] cs@[j]),
        decreases cs@.len() - i,
    {
        if !is_numeric_char(cs[i]) {
            return false;
        }
        i = i + 1;
    }
    true
}

/// The (at most three) extensions whose languages the header names, with
/// their line counts, in the order of the metrics.
pub fn language_entries(by_extension: &[(String, usize)]) -> (r: Vec<(String, usize)>)
    ensures
        pairs_view(r@) == language_pick(pairs_view(by_extension@), 3),
{
    let ghost t = pairs_view(by_extension@);
    let mut r: Vec<(String, usize)> = Vec::new();
    let mut i: usize = 0;
    let mut left: usize = 3;
    assert(t.skip(0) == t);
    while i < by_extension.len() && left > 0
        invariant
            i <= by_extension@.len(),
            left <= 3,
            t == pairs_view(by_extension@),
            language_pick(t, 3) == pairs_view(r@) + language_pick(t.skip(i as int), left as nat),
        decreases by_extension@.len() - i,
    {
        let ext = to_chars(by_extension[i].0.as_str());
        let ghost rest = t.skip(i as int);
        assert(rest[0] == t[i as int]);
        assert(rest.skip(1) == t.skip(i + 1));
        let keep = ext.len() > 0 && !str_eq(by_extension[i].0.as_str(), "no-ext") && !all_numeric(ext.as_slice());
        if keep {
            let ghost before = r@;
            r.push((owned(by_extension[i].0.as_str()), by_extension[i].1));
            assert(pairs_view(r@) =~= pairs_view(before).push(t[i as int]));
            assert(pairs_view(r@) + language_pick(t.skip(i + 1), (left - 1) as nat) =~= pairs_view(before) + (seq![t[i as int]] + language_pick(t.skip(i + 1), (left - 1) as nat)));
            left = left - 1;
        }
        i = i + 1;
    }
    assert(language_pick(t.skip(i as int), left as nat) == Seq::<(Seq<char>, nat)>::empty());
    assert(pairs_view(r@) + Seq::<(Seq<char>, nat)>::empty() =~= pairs_view(r@));
    r
}

/// One language piece: name and percentage, dimmed.
pub open spec fn language_piece(ext: Seq<char>, pct: nat, colors: bool) -> Seq<char> {
    paint("\x1b[2m"@, colors) + language_name_text(ext) + " "@ + dec_digits(pct) + "%"@ + paint(reset_code(), colors)
}

/// The pieces of the language detail, the first after `icon` when one is given.
pub open spec fn language_pieces(langs: Seq<(Seq<char>, nat)>, icon: Option<Seq<char>>, colors: bool) -> Seq<Seq<char>> {
    Seq::new(langs.len(), |i: int| lang_piece_at(langs, icon, colors, i))
}

/// The `i`th piece of the language detail.
pub open spec fn lang_piece_at(langs: Seq<(Seq<char>, nat)>, icon: Option<Seq<char>>, colors: bool, i: int) -> Seq<char> {
    match icon {
        Some(ic) => if i == 0 {
            ic + " "@ + language_piece(langs[i].0, langs[i].1, colors)
        } else {
            language_piece(langs[i].0, langs[i].1, colors)
        },
        None => language_piece(langs[i].0, langs[i].1, colors),
    }
}

/// The language detail from the picked extensions, each with its share of
/// the lines in percent: dimmed, the pieces separated by spaces.
pub fn language_detail(langs: &[(String, usize)], icon: Option<&str>, colors: bool) -> (r: String)
    ensures
        r@ == paint("\x1b[2m"@, colors) + join_spec(language_pieces(pairs_view(langs@), match icon {
            Some(i) => Some(i@),
            None => None,
        }, colors), " "@),
{
    let ghost lv = pairs_view(langs@);
    let ghost ic = match icon {
        Some(i) => Some(i@),
        None => None,
    };
    let mut parts: Vec<String> = Vec::new();
    let mut i: usize = 0;
    while i < langs.len()
        invariant
            i <= langs@.len(),
            lv == pairs_view(langs@),
            ic == (match icon { Some(x) => Some(x@), None => None }),
            views(parts@) == language_pieces(lv.take(i as int), ic, colors),
        decreases langs@.len() - i,
    {
        let mut body = language_name(langs[i].0.as_str());
        push_str(&mut body, " ");
        push_u64(&mut body, langs[i].1 as u64);
        push_str(&mut body, "%");
        let piece_text = colored("\x1b[2m", body.as_str(), colors);
        let text = if i == 0 {
            match icon {
                Some(ic_str) => {
                    let mut s = owned(ic_str);
                    push_str(&mut s, " ");
                    push_str(&mut s, piece_text.as_str());
                    s
                },
                None => piece_text,
            }
        } else {
            piece_text
        };
        let ghost before = views(parts@);
        push_seq(&mut parts, text);
        proof {
            assert(lv.take(i + 1)[i as int] == lv[i as int]);
            assert(text@ == lang_piece_at(lv.take(i + 1), ic, colors, i as int));
            assert forall|k: int| 0 <= k < i implies #[trigger] lang_piece_at(lv.take(i + 1), ic, colors, k) == lang_piece_at(lv.take(i as int), ic, colors, k) by {
                assert(lv.take(i + 1)[k] == lv.take(i as int)[k]);
            }
            assert(views(parts@) =~= language_pieces(lv.take(i + 1), ic, colors));
        }
        i = i + 1;
    }
    assert(lv.take(langs@.len() as int) == lv);
    let mut s = owned(crate::banner::color("\x1b[2m", colors));
    push_str(&mut s, join(parts.as_slice(), " ").as_str());
    s
}

/// How the two header rows are put together: the first row alone without
/// details; the details on a second line when both fit the terminal width
/// (or the width is unknown, zero); else the details that fit in the
/// width left (less three), when more than twenty columns are left, else
/// the first row alone. Widths are counted in bytes, the first row's
/// without its color codes.
pub open spec fn header_text(row1: Seq<char>, details: Seq<Seq<char>>, term_width: nat) -> Seq<char> {
    if details.len() == 0 {
        row1
    } else {
        let joined = join_spec(details, " │ "@);
        let w1 = utf8_len(strip_ansi_text(row1));
        if term_width > 0 && w1 + utf8_len(joined) > term_width {
            let available = if term_width >= w1 + 3 { (term_width - (w1 + 3)) as nat } else { 0 };
            if available > 20 {
                row1 + "\n"@ + join_spec(fit_all(details, available).0, " │ "@)
            } else {
                row1
            }
        } else {
            row1 + "\n"@ + joined
        }
    }
}

/// Puts the header rows together for a terminal `term_width` columns wide.
pub fn combine_header(row1: &str, details: &[String], term_width: usize) -> (r: String)
    ensures
        r@ == header_text(row1@, views(details@), term_width as nat),
{
    if details.len() == 0 {
        return owned(row1);
    }
    let joined = join(details, " │ ");
    let stripped = strip_ansi(row1);
    let sc = to_chars(stripped.as_str());
    let jc = to_chars(joined.as_str());
    let w1 = utf8_len_of(sc.as_slice());
    let wj = utf8_len_of(jc.as_slice());
    let sl = sc.len();
    let jl = jc.len();
    assert(w1 <= 4 * sl && wj <= 4 * jl);
    let tw = term_width as u128;
    if tw > 0 && w1 + wj > tw {
        let available: u128 = if tw >= w1 + 3 { tw - (w1 + 3) } else { 0 };
        if available > 20 {
            let t = truncate_details(details, available as usize);
            let mut s = owned(row1);
            push_str(&mut s, "\n");
            push_str(&mut s, t.as_str());
            s
        } else {
            owned(row1)
        }
    } else {
        let mut s = owned(row1);
        push_str(&mut s, "\n");
        push_str(&mut s, joined.as_str());
        s
    }
}

/// The underline under the header: `─` once per byte of its last line
/// without color codes (none for an empty header).
pub open spec fn underline_text(header: Seq<char>) -> Seq<char> {
    let ls = lines_text(header);
    if ls.len() == 0 {
        Seq::empty()
    } else {
        Seq::new(utf8_len(strip_ansi_text(ls.last())), |i: int| '─')
    }
}

/// Builds the underline under the header.
pub fn underline(header: &str) -> (r: String)
    ensures
        r@ == underline_text(header@),
{
    let hc = to_chars(header);
    let ls = lines(hc.as_slice());
    if ls.len() == 0 {
        return String::new();
    }
    let last = string_from_chars(ls[ls.len() - 1].as_slice());
    let stripped = strip_ansi(last.as_str());
    let n = utf8_len_of(to_chars(stripped.as_str()).as_slice());
    let mut s = String::new();
    let mut k: u128 = 0;
    while k < n
        invariant
            k <= n,
            s@ == Seq::new(k as nat, |i: int| '─'),
        decreases n - k,
    {
        crate::text::push_char(&mut s, '─');
        assert(s@ =~= Seq::new((k + 1) as nat, |i: int| '─'));
        k = k + 1;
    }
    s
}

/// The trimmed pieces of a comma-separated column list.
pub open spec fn block_list(s: Seq<char>) -> Seq<Seq<char>> {
    split_text(s, ',').map_values(|p: Seq<char>| trim_text(p))
}

/// The columns a listing shows: the `--blocks` list when given, else the
/// compact set, else every column in verbose mode, else the configured ones.
pub open spec fn columns_spec(blocks: Option<Seq<char>>, compact: bool, verbose: bool, configured: Seq<Seq<char>>) -> Seq<Seq<char>> {
    match blocks {
        Some(b) => block_list(b),
        None => if compact {
            seq!["size"@, "date"@, "name"@]
        } else if verbose {
            seq!["permission"@, "owner"@, "group"@, "size"@, "contents"@, "date"@, "name"@]
        } else {
            configured
        },
    }
}

fn strings_of(xs: &[&str]) -> (r: Vec<String>)
    ensures
        views(r@) == xs@.map_values(|s: &str| s@),
{
    let mut r: Vec<String> = Vec::new();
    let mut i: usize = 0;
    while i < xs.len()
        invariant
            i <= xs@.len(),
            views(r@) == xs@.take(i as int).map_values(|s: &str| s@),
        decreases xs@.len() - i,
    {
        push_seq(&mut r, owned(xs[i]));
        assert(xs@.take(i + 1).map_values(|s: &str| s@) =~= xs@.take(i as int).map_values(|s: &str| s@).push(xs@[i as int]@));
        i = i + 1;
    }
    assert(xs@.take(xs@.len() as int) == xs@);
    r
}

/// Decides the columns a listing shows.
pub fn effective_columns(blocks: Option<&str>, compact: bool, verbose: bool, configured: &[String]) -> (r: Vec<String>)
    ensures
        views(r@) == columns_spec(match blocks {
            Some(b) => Some(b@),
            None => None,
        }, compact, verbose, views(configured@)),
{
    match blocks {
        Some(b) => {
            let bc = to_chars(b);
            let parts = split_chars(bc.as_slice(), ',');
            let ghost pv = split_text(b@, ',');
            let mut r: Vec<String> = Vec::new();
            let mut i: usize = 0;
            while i < parts.len()
                invariant
                    i <= parts@.len(),
                    parts@.len() == pv.len(),
                    pv == split_text(b@, ','),
                    forall|k: int| 0 <= k < parts@.len() ==> #[trigger] parts@[k]@ == pv[k],
                    views(r@) == block_list(b@).take(i as int),
                decreases parts@.len() - i,
            {
                let t = crate::parse::trim_chars(parts[i].as_slice());
                push_seq(&mut r, string_from_chars(t.as_slice()));
                assert(block_list(b@).take(i + 1) =~= block_list(b@).take(i as int).push(trim_text(pv[i as int])));
                i = i + 1;
            }
            assert(block_list(b@).take(parts@.len() as int) =~= block_list(b@));
            r
        },
        None => {
            if compact {
                let r = strings_of(&["size", "date", "name"]);
                assert(views(r@) =~= seq!["size"@, "date"@, "name"@]);
                r
            } else if verbose {
                let r = strings_of(&["permission", "owner", "group", "size", "contents", "date", "name"]);
                assert(views(r@) =~= seq!["permission"@, "owner"@, "group"@, "size"@, "contents"@, "date"@, "name"@]);
                r
            } else {
                let mut r: Vec<String> = Vec::new();
                let mut i: usize = 0;
                while i < configured.len()
                    invariant
                        i <= configured@.len(),
                        views(r@) == views(configured@).take(i as int),
                    decreases configured@.len() - i,
                {
                    push_seq(&mut r, owned(configured[i].as_str()));
                    assert(views(configured@).take(i + 1) =~= views(configured@).take(i as int).push(configured@[i as int]@));
                    i = i + 1;
                }
                assert(views(configured@).take(configured@.len() as int) =~= views(configured@));
                r
            }
        },
    }
}

/// `[x]` for `Some(x)`, nothing for `None`.
pub open spec fn opt_piece(o: Option<Seq<char>>) -> Seq<Seq<char>> {
    match o {
        Some(x) => seq![x],
        None => Seq::empty(),
    }
}

/// The TODO and line-count pieces, with the language detail `lang` after
/// the line count when there are metrics by extension.
pub open spec fn insight_pieces(todos: Option<TodoInfo>, metrics: Option<CodeMetrics>, lang: Seq<char>, colors: bool) -> Seq<Seq<char>> {
    (match todos {
        Some(t) => piece(t.count > 0, paint("\x1b[33m"@, colors) + "📝 "@ + dec_digits(t.count as nat) + " TODOs"@ + paint(reset_code(), colors)),
        None => Seq::empty(),
    }) + (match metrics {
        Some(m) => if m.total_loc > 0 {
            seq![paint("\x1b[32m"@, colors) + "📊 "@ + loc_text(m.total_loc as nat) + " lines"@ + paint(reset_code(), colors)]
                + piece(m.by_extension@.len() > 0, lang)
        } else {
            Seq::empty()
        },
        None => Seq::empty(),
    })
}

fn push_insights(parts: &mut Vec<String>, todos: &Option<TodoInfo>, metrics: &Option<CodeMetrics>, lang: &str, colors: bool)
    ensures
        views(final(parts)@) == views(old(parts)@) + insight_pieces(*todos, *metrics, lang@, colors),
{
    let ghost start = views(parts@);
    match todos {
        Some(t) => if t.count > 0 {
            push_as(parts, colored("\x1b[33m", text_then_number("📝 ", t.count as u64, " TODOs").as_str(), colors),
                Ghost(paint("\x1b[33m"@, colors) + "📝 "@ + dec_digits(t.count as nat) + " TODOs"@ + paint(reset_code(), colors)));
        },
        None => {},
    }
    let ghost mid = views(parts@);
    match metrics {
        Some(m) => if m.total_loc > 0 {
            let mut body = owned("📊 ");
            push_str(&mut body, format_loc(m.total_loc).as_str());
            push_str(&mut body, " lines");
            push_as(parts, colored("\x1b[32m", body.as_str(), colors),
                Ghost(paint("\x1b[32m"@, colors) + "📊 "@ + loc_text(m.total_loc as nat) + " lines"@ + paint(reset_code(), colors)));
            if m.by_extension.len() > 0 {
                push_seq(parts, owned(lang));
            }
        },
        None => {},
    }
    assert(views(parts@) =~= start + insight_pieces(*todos, *metrics, lang@, colors));
}

/// The details row of a repository: size, file and directory counts, the
/// insights, the build result (with its error count), ports, running
/// containers, and test results.
pub open spec fn repo_detail_pieces(
    s: crate::summary::DirSummary,
    lang: Seq<char>,
    build_ms: u64,
    tests: Option<TestResults>,
    now: i64,
    colors: bool,
) -> Seq<Seq<char>> {
    base_pieces(s, colors) + insight_pieces(s.todo_info, s.code_metrics, lang, colors)
        + (match s.build_status {
            Some(b) => seq![build_detail_text(b, build_ms, true, colors)],
            None => Seq::empty(),
        })
        + (match s.port_info {
            Some(p) => opt_piece(crate::ports::ports_detail_text(p.ports@, colors)),
            None => Seq::empty(),
        })
        + (match s.docker_info {
            Some(d) => if d.containers@.len() > 0 { opt_piece(crate::docker::docker_detail_text(d, colors)) } else { Seq::empty() },
            None => Seq::empty(),
        })
        + (match tests {
            Some(t) => opt_piece(tests_detail_text(t, now, colors)),
            None => Seq::empty(),
        })
}

fn push_opt(parts: &mut Vec<String>, o: Option<String>)
    ensures
        views(final(parts)@) == views(old(parts)@) + opt_piece(match o {
            Some(x) => Some(x@),
            None => None,
        }),
{
    match o {
        Some(x) => {
            let ghost before = views(parts@);
            push_seq(parts, x);
            assert(views(parts@) =~= before + seq![x@]);
        },
        None => {
            assert(views(parts@) =~= views(parts@) + Seq::<Seq<char>>::empty());
        },
    }
}

fn push_ports_docker(parts: &mut Vec<String>, s: &crate::summary::DirSummary, docker_needs_containers: bool, colors: bool)
    ensures
        views(final(parts)@) == views(old(parts)@)
            + (match s.port_info {
                Some(p) => opt_piece(crate::ports::ports_detail_text(p.ports@, colors)),
                None => Seq::empty(),
            })
            + (match s.docker_info {
                Some(d) => if !docker_needs_containers || d.containers@.len() > 0 { opt_piece(crate::docker::docker_detail_text(d, colors)) } else { Seq::empty() },
                None => Seq::empty(),
            }),
{
    let ghost start = views(parts@);
    match &s.port_info {
        Some(p) => {
            let o = crate::ports::ports_detail(p, colors);
            push_opt(parts, o);
        },
        None => {},
    }
    let ghost mid = views(parts@);
    match &s.docker_info {
        Some(d) => {
            if !docker_needs_containers || d.containers.len() > 0 {
                let o = crate::docker::docker_detail(d, colors);
                push_opt(parts, o);
            }
        },
        None => {},
    }
    assert(views(parts@) =~= start
        + (match s.port_info {
            Some(p) => opt_piece(crate::ports::ports_detail_text(p.ports@, colors)),
            None => Seq::empty(),
        })
        + (match s.docker_info {
            Some(d) => if !docker_needs_containers || d.containers@.len() > 0 { opt_piece(crate::docker::docker_detail_text(d, colors)) } else { Seq::empty() },
            None => Seq::empty(),
        }));
}

/// The size, file and directory pieces of the repository details.
pub open spec fn base_pieces(s: crate::summary::DirSummary, colors: bool) -> Seq<Seq<char>> {
    seq![
        paint("\x1b[36m"@, colors) + "💾 "@ + size_compact_text(s.total_size as nat) + " total"@ + paint(reset_code(), colors),
        paint("\x1b[2m"@, colors) + "📄 "@ + dec_digits(s.files as nat) + " files"@ + paint(reset_code(), colors),
        paint("\x1b[2m"@, colors) + "📂 "@ + dec_digits(s.dirs as nat) + " dirs"@ + paint(reset_code(), colors)
    ]
}

fn base_parts(s: &crate::summary::DirSummary, colors: bool) -> (r: Vec<String>)
    ensures
        views(r@) == base_pieces(*s, colors),
{
    let mut parts: Vec<String> = Vec::new();
    let mut a = owned("💾 ");
    push_str(&mut a, format_size_compact(s.total_size).as_str());
    push_str(&mut a, " total");
    push_as(&mut parts, colored("\x1b[36m", a.as_str(), colors),
        Ghost(paint("\x1b[36m"@, colors) + "💾 "@ + size_compact_text(s.total_size as nat) + " total"@ + paint(reset_code(), colors)));
    push_as(&mut parts, colored("\x1b[2m", text_then_number("📄 ", s.files as u64, " files").as_str(), colors),
        Ghost(paint("\x1b[2m"@, colors) + "📄 "@ + dec_digits(s.files as nat) + " files"@ + paint(reset_code(), colors)));
    push_as(&mut parts, colored("\x1b[2m", text_then_number("📂 ", s.dirs as u64, " dirs").as_str(), colors),
        Ghost(paint("\x1b[2m"@, colors) + "📂 "@ + dec_digits(s.dirs as nat) + " dirs"@ + paint(reset_code(), colors)));
    assert(views(parts@) =~= base_pieces(*s, colors));
    parts
}

fn push_build(parts: &mut Vec<String>, b: &Option<BuildStatus>, build_ms: u64, with_count: bool, colors: bool)
    ensures
        views(final(parts)@) == views(old(parts)@) + match *b {
            Some(x) => seq![build_detail_text(x, build_ms, with_count, colors)],
            None => Seq::<Seq<char>>::empty(),
        },
{
    match b {
        Some(x) => push_seq(parts, build_detail(x, build_ms, with_count, colors)),
        None => {
            assert(views(parts@) =~= views(parts@) + Seq::<Seq<char>>::empty());
        },
    }
}

fn push_tests(parts: &mut Vec<String>, tests: &Option<TestResults>, now: i64, colors: bool)
    ensures
        views(final(parts)@) == views(old(parts)@) + match *tests {
            Some(t) => opt_piece(tests_detail_text(t, now, colors)),
            None => Seq::<Seq<char>>::empty(),
        },
{
    match tests {
        Some(t) => {
            let o = tests_detail(t, now, colors);
            push_opt(parts, o);
        },
        None => {
            assert(views(parts@) =~= views(parts@) + Seq::<Seq<char>>::empty());
        },
    }
}

/// Builds the details row of a repository; `lang` is the language detail
/// (see [`language_detail`]) and `build_ms` how long the build check took.
pub fn repo_details(
    s: &crate::summary::DirSummary,
    lang: &str,
    build_ms: u64,
    tests: Option<TestResults>,
    now: i64,
    colors: bool,
) -> (r: Vec<String>)
    ensures
        views(r@) == repo_detail_pieces(*s, lang@, build_ms, tests, now, colors),
{
    let mut parts = base_parts(s, colors);
    let ghost p0 = views(parts@);
    push_insights(&mut parts, &s.todo_info, &s.code_metrics, lang, colors);
    let ghost p1 = views(parts@);
    push_build(&mut parts, &s.build_status, build_ms, true, colors);
    let ghost p2 = views(parts@);
    push_ports_docker(&mut parts, s, true, colors);
    let ghost p3 = views(parts@);
    push_tests(&mut parts, &tests, now, colors);
    assert(views(parts@) =~= repo_detail_pieces(*s, lang@, build_ms, tests, now, colors));
    parts
}

/// The details row outside a repository: the build result (without a
/// count), the insights, ports, containers or docker files, and the total
/// number of entries.
pub open spec fn plain_detail_pieces(s: crate::summary::DirSummary, lang: Seq<char>, build_ms: u64, colors: bool) -> Seq<Seq<char>> {
    (match s.build_status {
        Some(b) => seq![build_detail_text(b, build_ms, false, colors)],
        None => Seq::empty(),
    })
        + insight_pieces(s.todo_info, s.code_metrics, lang, colors)
        + (match s.port_info {
            Some(p) => opt_piece(crate::ports::ports_detail_text(p.ports@, colors)),
            None => Seq::empty(),
        })
        + (match s.docker_info {
            Some(d) => opt_piece(crate::docker::docker_detail_text(d, colors)),
            None => Seq::empty(),
        })
        + seq![paint("\x1b[2m"@, colors) + dec_digits(s.total_items as nat) + " total"@ + paint(reset_code(), colors)]
}

/// Builds the details row outside a repository.
pub fn plain_details(s: &crate::summary::DirSummary, lang: &str, build_ms: u64, colors: bool) -> (r: Vec<String>)
    ensures
        views(r@) == plain_detail_pieces(*s, lang@, build_ms, colors),
{
    let mut parts: Vec<String> = Vec::new();
    push_build(&mut parts, &s.build_status, build_ms, false, colors);
    let ghost p0 = views(parts@);
    push_insights(&mut parts, &s.todo_info, &s.code_metrics, lang, colors);
    let ghost p1 = views(parts@);
    push_ports_docker(&mut parts, s, false, colors);
    let ghost p2 = views(parts@);
    push_as(&mut parts, colored("\x1b[2m", number_then(s.total_items as u64, " total").as_str(), colors),
        Ghost(paint("\x1b[2m"@, colors) + dec_digits(s.total_items as nat) + " total"@ + paint(reset_code(), colors)));
    assert(views(parts@) =~= plain_detail_pieces(*s, lang@, build_ms, colors));
    parts
}

} // verus!
