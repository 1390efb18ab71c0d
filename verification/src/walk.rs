//! The recursive listing: the order of a directory's entries, which entries
//! it prints, their lines, and which paths count as ignored by git.

use vstd::prelude::*;
use crate::banner::{glob_match, glob_matches};
use crate::listing::{lex_compare_chars, lex_order, lex_order_antisymmetric};
use crate::parse::{lines, lines_text, trim_chars, trim_text};
use crate::text::{
    contains, ends_with, has_infix, has_suffix, owned, push_str, str_eq, string_from_chars, to_chars, views,
};

verus! {

/// `out` is `0..n` rearranged so that names never decrease, equal names
/// keeping their original order.
pub open spec fn prefix_sorted(out: Seq<usize>, names: Seq<Seq<char>>, n: nat) -> bool {
    &&& out.len() == n
    &&& forall|k: int| 0 <= k < out.len() ==> #[trigger] out[k] < n
    &&& forall|a: int, b: int| 0 <= a < out.len() && 0 <= b < out.len() && a != b ==> out[a] != out[b]
    &&& forall|k: int| 0 <= k < out.len() - 1 ==> {
        let c = lex_order(names[#[trigger] out[k] as int], names[out[k + 1] as int]);
        c < 0 || (c == 0 && out[k] < out[k + 1])
    }
}

/// `out` lists the positions of all of `names` in name order, ties in
/// position order.
pub open spec fn name_sorted(out: Seq<usize>, names: Seq<Seq<char>>) -> bool {
    prefix_sorted(out, names, names.len())
}

proof fn lemma_insert_sorted(before: Seq<usize>, j: int, i: usize, names: Seq<Seq<char>>)
    requires
        i < names.len(),
        prefix_sorted(before, names, i as nat),
        0 <= j <= before.len(),
        j > 0 ==> lex_order(names[before[j - 1] as int], names[i as int]) <= 0,
        j < before.len() ==> lex_order(names[before[j] as int], names[i as int]) > 0,
    ensures
        prefix_sorted(before.insert(j, i), names, (i + 1) as nat),
{
    let out = before.insert(j, i);
    if j < before.len() {
        lex_order_antisymmetric(names[before[j] as int], names[i as int]);
    }
    assert forall|k: int| 0 <= k < out.len() - 1 implies {
        let c = lex_order(names[#[trigger] out[k] as int], names[out[k + 1] as int]);
        c < 0 || (c == 0 && out[k] < out[k + 1])
    } by {
        if k < j - 1 {
            assert(out[k] == before[k] && out[k + 1] == before[k + 1]);
        } else if k == j - 1 {
            assert(out[k] == before[k] && out[k + 1] == i);
        } else if k == j {
            assert(out[k] == i && out[k + 1] == before[k]);
        } else {
            assert(out[k] == before[k - 1] && out[k + 1] == before[k]);
        }
    }
    assert forall|a: int, b: int| 0 <= a < out.len() && 0 <= b < out.len() && a != b implies out[a] != out[b] by {
        if a != j && b != j {
            let ia = if a < j { a } else { a - 1 };
            let ib = if b < j { b } else { b - 1 };
            assert(out[a] == before[ia] && out[b] == before[ib]);
        } else if a == j {
            let ib = if b < j { b } else { b - 1 };
            assert(out[b] == before[ib]);
        } else {
            let ia = if a < j { a } else { a - 1 };
            assert(out[a] == before[ia]);
        }
    }
    assert forall|k: int| 0 <= k < out.len() implies #[trigger] out[k] < i + 1 by {
        if k < j {
            assert(out[k] == before[k]);
        } else if k > j {
            assert(out[k] == before[k - 1]);
        }
    }
}

fn insert_next(out: &mut Vec<usize>, keys: &Vec<Vec<char>>, i: usize, Ghost(names): Ghost<Seq<Seq<char>>>)
    requires
        i < keys@.len(),
        keys@.len() == names.len(),
        forall|k: int| 0 <= k < keys@.len() ==> #[trigger] keys@[k]@ == names[k],
        prefix_sorted(old(out)@, names, i as nat),
    ensures
        prefix_sorted(final(out)@, names, (i + 1) as nat),
{
    let mut j: usize = out.len();
    while j > 0 && lex_compare_chars(keys[out[j - 1]].as_slice(), keys[i].as_slice()) > 0
        invariant
            j <= out@.len(),
            i < keys@.len(),
            keys@.len() == names.len(),
            out@ == old(out)@,
            prefix_sorted(out@, names, i as nat),
            forall|k: int| 0 <= k < keys@.len() ==> #[trigger] keys@[k]@ == names[k],
            forall|k: int| j <= k < out@.len() ==> lex_order(names[#[trigger] out@[k] as int], names[i as int]) > 0,
        decreases j,
    {
        j = j - 1;
    }
    proof {
        lemma_insert_sorted(out@, j as int, i, names);
    }
    out.insert(j, i);
}

/// The positions of `names` in name order (a stable sort).
pub fn name_order(names: &[String]) -> (r: Vec<usize>)
    ensures
        name_sorted(r@, views(names@)),
{
    let ghost nv = views(names@);
    let mut keys: Vec<Vec<char>> = Vec::new();
    let mut t: usize = 0;
    while t < names.len()
        invariant
            t <= names@.len(),
            nv == views(names@),
            keys@.len() == t,
            forall|k: int| 0 <= k < t ==> #[trigger] keys@[k]@ == nv[k],
        decreases names@.len() - t,
    {
        keys.push(to_chars(names[t].as_str()));
        t = t + 1;
    }
    let mut out: Vec<usize> = Vec::new();
    let mut i: usize = 0;
    while i < names.len()
        invariant
            i <= names@.len(),
            nv == views(names@),
            keys@.len() == names@.len(),
            forall|k: int| 0 <= k < keys@.len() ==> #[trigger] keys@[k]@ == nv[k],
            prefix_sorted(out@, nv, i as nat),
        decreases names@.len() - i,
    {
        insert_next(&mut out, &keys, i, Ghost(nv));
        i = i + 1;
    }
    out
}

/// Names and path fragments that count as ignored without reading a `.gitignore`.
pub open spec fn builtin_ignored() -> Seq<Seq<char>> {
    seq![".git"@, "node_modules"@, "target"@, "__pycache__"@, ".venv"@, "dist"@, "build"@]
}

/// A path counts as ignored by its name alone: the name is one of the
/// built-in ones, or the path passes through one (`/name/`) or ends in one (`/name`).
pub open spec fn builtin_ignore_spec(path: Seq<char>, name: Seq<char>) -> bool {
    builtin_ignored().contains(name) || exists|i: int| 0 <= i < builtin_ignored().len() && (
        has_infix(path, "/"@ + #[trigger] builtin_ignored()[i] + "/"@) || has_suffix(path, "/"@ + builtin_ignored()[i]))
}

/// Whether the path (with its name `name`) counts as ignored by name alone.
pub fn builtin_ignores(path: &str, name: &str) -> (r: bool)
    ensures
        r == builtin_ignore_spec(path@, name@),
{
    let pats = [".git", "node_modules", "target", "__pycache__", ".venv", "dist", "build"];
    let ghost bi = builtin_ignored();
    assert forall|i: int| 0 <= i < bi.len() implies #[trigger] pats@[i]@ == bi[i] by {}
    let pc = to_chars(path);
    let mut i: usize = 0;
    while i < pats.len()
        invariant
            i <= pats@.len(),
            pats@.len() == bi.len(),
            bi == builtin_ignored(),
            pc@ == path@,
            forall|k: int| 0 <= k < bi.len() ==> #[trigger] pats@[k]@ == bi[k],
            forall|k: int| 0 <= k < i ==> bi[k] != name@,
            forall|k: int| 0 <= k < i ==> !(has_infix(path@, "/"@ + #[trigger] bi[k] + "/"@) || has_suffix(path@, "/"@ + bi[k])),
        decreases pats@.len() - i,
    {
        if str_eq(name, pats[i]) {
            assert(bi[i as int] == name@);
            return true;
        }
        let mut inner = owned("/");
        push_str(&mut inner, pats[i]);
        let mut tail = inner.clone();
        push_str(&mut inner, "/");
        let ic = to_chars(inner.as_str());
        let tc = to_chars(tail.as_str());
        if contains(pc.as_slice(), ic.as_slice()) || ends_with(pc.as_slice(), tc.as_slice()) {
            assert(has_infix(path@, "/"@ + bi[i as int] + "/"@) || has_suffix(path@, "/"@ + bi[i as int]));
            return true;
        }
        i = i + 1;
    }
    assert(!bi.contains(name@)) by {
        if bi.contains(name@) {
            let k = choose|k: int| 0 <= k < bi.len() && bi[k] == name@;
        }
    }
    false
}

/// A `.gitignore` with the text `content` ignores `name`: one of its lines,
/// trimmed, neither empty nor a comment, matches the name as a glob.
pub open spec fn gitignore_hit(content: Seq<char>, name: Seq<char>) -> bool {
    exists|i: int| 0 <= i < lines_text(content).len() && {
        let t = trim_text(#[trigger] lines_text(content)[i]);
        t.len() > 0 && t[0] != '#' && glob_matches(t, name)
    }
}

/// Whether a `.gitignore` with the text `content` ignores `name`.
pub fn gitignore_matches(content: &str, name: &str) -> (r: bool)
    ensures
        r == gitignore_hit(content@, name@),
{
    let cs = to_chars(content);
    let ls = lines(cs.as_slice());
    let ghost lt = lines_text(content@);
    let mut i: usize = 0;
    while i < ls.len()
        invariant
            i <= ls@.len(),
            ls@.len() == lt.len(),
            lt == lines_text(content@),
            forall|k: int| 0 <= k < ls@.len() ==> #[trigger] ls@[k]@ == lt[k],
            forall|k: int| 0 <= k < i ==> !({
                let t = trim_text(#[trigger] lt[k]);
                t.len() > 0 && t[0] != '#' && glob_matches(t, name@)
            }),
        decreases ls@.len() - i,
    {
        let t = trim_chars(ls[i].as_slice());
        if t.len() > 0 && t[0] != '#' {
            let pat = string_from_chars(t.as_slice());
            if glob_match(pat.as_str(), name) {
                assert({
                    let tt = trim_text(lt[i as int]);
                    tt.len() > 0 && tt[0] != '#' && glob_matches(tt, name@)
                });
                return true;
            }
        }
        assert(!({
            let tt = trim_text(lt[i as int]);
            tt.len() > 0 && tt[0] != '#' && glob_matches(tt, name@)
        }));
        i = i + 1;
    }
    false
}

/// The recursive listing prints an entry unless it is hidden (and hidden
/// entries are not asked for), matches an ignore glob, misses the filter in
/// both its name and its path, is of the kind not asked for, or is ignored
/// by git while such entries are left out.
pub open spec fn walk_keeps_spec(
    name: Seq<char>,
    path: Seq<char>,
    is_dir: bool,
    hidden: bool,
    ignore_globs: Seq<Seq<char>>,
    filter: Option<Seq<char>>,
    only_dirs: bool,
    only_files: bool,
    git_ignored: bool,
) -> bool {
    &&& hidden || !(name.len() > 0 && name[0] == '.')
    &&& !(exists|g: int| 0 <= g < ignore_globs.len() && glob_matches(#[trigger] ignore_globs[g], name))
    &&& match filter {
        Some(p) => has_infix(name, p) || has_infix(path, p),
        None => true,
    }
    &&& !(only_dirs && !is_dir)
    &&& !(only_files && is_dir)
    &&& !git_ignored
}

/// Whether the recursive listing prints an entry (`git_ignored`: the entry
/// is ignored by git and such entries are left out).
pub fn walk_keeps(
    name: &str,
    path: &str,
    is_dir: bool,
    hidden: bool,
    ignore_globs: &[String],
    filter: Option<&str>,
    only_dirs: bool,
    only_files: bool,
    git_ignored: bool,
) -> (r: bool)
    ensures
        r == walk_keeps_spec(name@, path@, is_dir, hidden, views(ignore_globs@), match filter {
            Some(p) => Some(p@),
            None => None,
        }, only_dirs, only_files, git_ignored),
{
    let nc = to_chars(name);
    if !hidden && nc.len() > 0 && nc[0] == '.' {
        return false;
    }
    let ghost gv = views(ignore_globs@);
    let mut g: usize = 0;
    while g < ignore_globs.len()
        invariant
            g <= ignore_globs@.len(),
            gv == views(ignore_globs@),
            forall|k: int| 0 <= k < g ==> !glob_matches(#[trigger] gv[k], name@),
        decreases ignore_globs@.len() - g,
    {
        if glob_match(ignore_globs[g].as_str(), name) {
            assert(glob_matches(gv[g as int], name@));
            return false;
        }
        g = g + 1;
    }
    match filter {
        Some(p) => {
            let pc = to_chars(p);
            let qc = to_chars(path);
            if !contains(nc.as_slice(), pc.as_slice()) && !contains(qc.as_slice(), pc.as_slice()) {
                return false;
            }
        },
        None => {},
    }
    !(only_dirs && !is_dir) && !(only_files && is_dir) && !git_ignored
}

/// The line of an entry: its full path for raw output, its path relative to
/// the listed directory for one-per-line output, else the relative path with
/// `/` after a directory.
pub fn walk_line(relative: &str, full: &str, is_dir: bool, oneline: bool, raw: bool) -> (r: String)
    ensures
        r@ == (if oneline {
            relative@
        } else if raw {
            full@
        } else if is_dir {
            relative@ + "/"@
        } else {
            relative@
        }),
{
    if oneline {
        owned(relative)
    } else if raw {
        owned(full)
    } else if is_dir {
        let mut s = owned(relative);
        push_str(&mut s, "/");
        s
    } else {
        owned(relative)
    }
}

/// The listing stops once it has printed `max` entries (no limit without one).
pub fn walk_done(printed: usize, max: Option<usize>) -> (r: bool)
    ensures
        r == (match max {
            Some(m) => printed >= m,
            None => false,
        }),
{
    match max {
        Some(m) => printed >= m,
        None => false,
    }
}

} // verus!
