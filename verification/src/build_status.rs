//! Build status of a project: which check runs for which kind of project,
//! and how its output is summarised.

use vstd::prelude::*;
use crate::fs::ProjectType;
use crate::parse::{lines, lines_text};
use crate::text::{has_infix, owned, push_str, string_from_chars, to_chars, to_lowercase, unicode_lowercase, utf8_len, utf8_len_of};

verus! {

/// Build status result
#[derive(Debug, Clone)]
pub struct BuildStatus {
    pub ok: bool,
    pub errors: usize,
    pub warnings: usize,
    pub output: String,
}

/// The build check a project type gets.
#[derive(Debug, Clone, Copy, PartialEq, Eq, Structural)]
pub enum BuildCheck {
    /// `cargo check --message-format=short`
    Cargo,
    /// `npx tsc --noEmit`, or `npm run build --dry-run`
    Node,
    /// `go build ./...`
    Go,
    /// `python3 -m py_compile`
    Python,
}

pub open spec fn build_check_spec(pt: ProjectType) -> Option<BuildCheck> {
    match pt {
        ProjectType::Rust => Some(BuildCheck::Cargo),
        ProjectType::Node => Some(BuildCheck::Node),
        ProjectType::Go => Some(BuildCheck::Go),
        ProjectType::Python => Some(BuildCheck::Python),
        _ => None,
    }
}

/// Which build check runs for a project type (none for the others).
pub fn build_check_for(pt: &ProjectType) -> (r: Option<BuildCheck>)
    ensures
        r == build_check_spec(*pt),
{
    match pt {
        ProjectType::Rust => Some(BuildCheck::Cargo),
        ProjectType::Node => Some(BuildCheck::Node),
        ProjectType::Go => Some(BuildCheck::Go),
        ProjectType::Python => Some(BuildCheck::Python),
        _ => None,
    }
}

/// Number of lines of `ls` that contain `pattern` once lower-cased.
pub open spec fn matching_lines(ls: Seq<Seq<char>>, pattern: Seq<char>) -> nat
    decreases ls.len(),
{
    if ls.len() == 0 {
        0
    } else {
        matching_lines(ls.drop_last(), pattern) + if has_infix(unicode_lowercase(ls.last()), pattern) { 1nat } else { 0nat }
    }
}

fn count_in(text: &str, pattern: &[char]) -> (r: usize)
    ensures
        r == matching_lines(lines_text(text@), pattern@),
{
    let cs = to_chars(text);
    let ls = lines(cs.as_slice());
    let ghost lv = lines_text(text@);
    let mut n: usize = 0;
    let mut i: usize = 0;
    while i < ls.len()
        invariant
            i <= ls@.len(),
            ls@.len() == lv.len(),
            forall|k: int| 0 <= k < ls@.len() ==> #[trigger] ls@[k]@ == lv[k],
            n == matching_lines(lv.take(i as int), pattern@),
            n <= i,
        decreases ls@.len() - i,
    {
        assert(lv.take(i + 1).drop_last() == lv.take(i as int));
        assert(lv.take(i + 1).last() == ls@[i as int]@);
        let line = string_from_chars(ls[i].as_slice());
        let lower = to_lowercase(line.as_str());
        let lc = to_chars(lower.as_str());
        if crate::text::contains(lc.as_slice(), pattern) {
            n = n + 1;
        }
        i = i + 1;
    }
    assert(lv.take(lv.len() as int) == lv);
    n
}

/// Lines of stdout and stderr that mention `pattern` (case-insensitively).
pub fn count_matches(stdout: &str, stderr: &str, pattern: &str) -> (r: usize)
    requires
        matching_lines(lines_text(stdout@), pattern@) + matching_lines(lines_text(stderr@), pattern@) <= usize::MAX,
    ensures
        r == matching_lines(lines_text(stdout@), pattern@) + matching_lines(lines_text(stderr@), pattern@),
{
    let p = to_chars(pattern);
    let a = count_in(stdout, p.as_slice());
    let b = count_in(stderr, p.as_slice());
    a + b
}

/// `s` when it takes at most `max_len` bytes, else its first `max_len` bytes
/// and `…` (`max_len` must then fall on a character boundary).
pub open spec fn truncated_text(s: Seq<char>, max_len: nat) -> Seq<char> {
    if utf8_len(s) <= max_len {
        s
    } else {
        s.take(chars_within(s, max_len) as int) + "\u{2026}"@
    }
}

/// The number of leading characters of `s` that fit in `max` bytes.
pub open spec fn chars_within(s: Seq<char>, max: nat) -> nat
    decreases s.len(),
{
    if s.len() == 0 {
        0
    } else if utf8_len(s) <= max {
        s.len()
    } else {
        chars_within(s.drop_last(), max)
    }
}

/// `max_len` falls between two characters of `s` (or beyond its end).
pub open spec fn byte_boundary(s: Seq<char>, max_len: nat) -> bool {
    utf8_len(s) <= max_len || exists|k: int| 0 <= k <= s.len() && utf8_len(#[trigger] s.take(k)) == max_len
}

proof fn lemma_utf8_len_mono(s: Seq<char>, a: int, b: int)
    requires
        0 <= a <= b <= s.len(),
    ensures
        utf8_len(s.take(a)) <= utf8_len(s.take(b)),
        a < b ==> utf8_len(s.take(a)) < utf8_len(s.take(b)),
    decreases b - a,
{
    if a < b {
        lemma_utf8_len_mono(s, a, b - 1);
        assert(s.take(b) == s.take(b - 1).push(s[b - 1]));
        crate::text::lemma_encode_utf8_push(s.take(b - 1), s[b - 1]);
        vstd::utf8::char_is_scalar(s[b - 1]);
    }
}

/// Truncates output to `max_len` bytes, marking the cut with `…`.
pub fn truncate_output(s: &str, max_len: usize) -> (r: String)
    requires
        byte_boundary(s@, max_len as nat),
    ensures
        utf8_len(s@) <= max_len ==> r@ == s@,
        utf8_len(s@) > max_len ==> exists|k: int| 0 <= k <= s@.len() && utf8_len(#[trigger] s@.take(k)) == max_len && r@ == s@.take(k) + "\u{2026}"@,
{
    let cs = to_chars(s);
    let total = utf8_len_of(cs.as_slice());
    if total <= max_len as u128 {
        return owned(s);
    }
    let mut k: usize = 0;
    let mut used: u128 = 0;
    while k < cs.len()
        invariant
            k <= cs@.len(),
            cs@ == s@,
            used == utf8_len(cs@.take(k as int)),
            used <= max_len,
        ensures
            k <= cs@.len(),
            used == utf8_len(cs@.take(k as int)),
            used <= max_len,
            k < cs@.len() ==> utf8_len(cs@.take(k + 1)) > max_len,
        decreases cs@.len() - k,
    {
        let w = crate::text::char_utf8_width(cs[k]);
        proof {
            assert(cs@.take(k + 1) == cs@.take(k as int).push(cs@[k as int]));
            crate::text::lemma_encode_utf8_push(cs@.take(k as int), cs@[k as int]);
        }
        if used + w as u128 > max_len as u128 {
            break;
        }
        used = used + w as u128;
        k = k + 1;
    }
    proof {
        assert(cs@.take(cs@.len() as int) == cs@);
        let kk = choose|j: int| 0 <= j <= s@.len() && utf8_len(#[trigger] s@.take(j)) == max_len;
        if kk < k {
            lemma_utf8_len_mono(s@, kk, k as int);
        } else if kk > k {
            lemma_utf8_len_mono(s@, k + 1, kk);
            assert(s@.take(k + 1) == s@.take(k as int).push(s@[k as int]));
            crate::text::lemma_encode_utf8_push(s@.take(k as int), s@[k as int]);
        }
        assert(kk == k);
    }
    let head = crate::text::slice_chars(cs.as_slice(), 0, k);
    let mut r = string_from_chars(head.as_slice());
    push_str(&mut r, "\u{2026}");
    r
}

/// The status a compiler-style check (cargo, tsc, go) reports: errors and
/// warnings are the output lines that mention them; the build is fine
/// without errors and with a successful exit; the output kept is stdout cut
/// to 500 bytes.
pub fn compiler_check_status(success: bool, stdout: &str, stderr: &str) -> (r: BuildStatus)
    requires
        byte_boundary(stdout@, 500),
        matching_lines(lines_text(stdout@), "error"@) + matching_lines(lines_text(stderr@), "error"@) <= usize::MAX,
        matching_lines(lines_text(stdout@), "warning"@) + matching_lines(lines_text(stderr@), "warning"@) <= usize::MAX,
    ensures
        r.errors == matching_lines(lines_text(stdout@), "error"@) + matching_lines(lines_text(stderr@), "error"@),
        r.warnings == matching_lines(lines_text(stdout@), "warning"@) + matching_lines(lines_text(stderr@), "warning"@),
        r.ok == (r.errors == 0 && success),
        utf8_len(stdout@) <= 500 ==> r.output@ == stdout@,
        utf8_len(stdout@) > 500 ==> exists|k: int| 0 <= k <= stdout@.len() && utf8_len(#[trigger] stdout@.take(k)) == 500 && r.output@ == stdout@.take(k) + "\u{2026}"@,
{
    let errors = count_matches(stdout, stderr, "error");
    let warnings = count_matches(stdout, stderr, "warning");
    let output = truncate_output(stdout, 500);
    BuildStatus { ok: errors == 0 && success, errors, warnings, output }
}

/// How a Node project's build is checked.
#[derive(Debug, Clone, Copy, PartialEq, Eq, Structural)]
pub enum NodeCheck {
    /// `npx tsc --noEmit`, judged like a compiler.
    TypeCheck,
    /// `npm run build --dry-run`, judged by its exit status.
    BuildDryRun,
    /// Nothing runs; the build counts as fine.
    NothingToCheck,
}

/// A project with a `tsconfig.json` is type-checked; else one whose
/// `package.json` (its text, when it could be read) names a `"build"`
/// script gets a dry run of it; else nothing is checked.
pub fn node_check(has_tsconfig: bool, package_json: Option<&str>) -> (r: NodeCheck)
    ensures
        r == (if has_tsconfig {
            NodeCheck::TypeCheck
        } else if package_json matches Some(p) && has_infix(p@, "\"build\""@) {
            NodeCheck::BuildDryRun
        } else {
            NodeCheck::NothingToCheck
        }),
{
    if has_tsconfig {
        return NodeCheck::TypeCheck;
    }
    match package_json {
        Some(p) => {
            let text = to_chars(p);
            let key = to_chars("\"build\"");
            if crate::text::contains(text.as_slice(), key.as_slice()) {
                NodeCheck::BuildDryRun
            } else {
                NodeCheck::NothingToCheck
            }
        },
        None => NodeCheck::NothingToCheck,
    }
}

/// A Python project is compile-checked only when one of the directory's
/// entry names ends with `.py`.
pub fn python_check_needed(names: &[String]) -> (r: bool)
    ensures
        r == exists|i: int| 0 <= i < names@.len() && crate::text::has_suffix(#[trigger] names@[i]@, ".py"@),
{
    let ext = to_chars(".py");
    let mut i: usize = 0;
    while i < names.len()
        invariant
            i <= names@.len(),
            ext@ == ".py"@,
            forall|k: int| 0 <= k < i ==> !crate::text::has_suffix(#[trigger] names@[k]@, ".py"@),
        decreases names@.len() - i,
    {
        let n = to_chars(names[i].as_str());
        if crate::text::ends_with(n.as_slice(), ext.as_slice()) {
            return true;
        }
        i = i + 1;
    }
    false
}

/// The status of a check judged by its exit status alone (`npm run build
/// --dry-run`, `python3 -m py_compile`): fine exactly when it succeeded, one
/// error otherwise, no warnings; the output kept is `output` cut to 500
/// bytes.
pub fn exit_status_check(success: bool, output: &str) -> (r: BuildStatus)
    requires
        byte_boundary(output@, 500),
    ensures
        r.ok == success,
        r.errors == (if success { 0usize } else { 1usize }),
        r.warnings == 0,
        utf8_len(output@) <= 500 ==> r.output@ == output@,
        utf8_len(output@) > 500 ==> exists|k: int| 0 <= k <= output@.len() && utf8_len(#[trigger] output@.take(k)) == 500 && r.output@ == output@.take(k) + "\u{2026}"@,
{
    BuildStatus { ok: success, errors: if success { 0 } else { 1 }, warnings: 0, output: truncate_output(output, 500) }
}

/// The status when nothing needs checking: fine, no errors, no warnings, no output.
pub fn nothing_to_check() -> (r: BuildStatus)
    ensures
        r.ok,
        r.errors == 0,
        r.warnings == 0,
        r.output@ == Seq::<char>::empty(),
{
    BuildStatus { ok: true, errors: 0, warnings: 0, output: String::new() }
}

} // verus!
