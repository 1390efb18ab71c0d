//! Removal: the paths that `rm` refuses, what it does with each path it is
//! given, and what it reports.

use vstd::prelude::*;
use crate::text::{
    chars_eq, dec_digits, has_prefix, owned, push_str, push_u64, starts_with, to_chars,
    to_lowercase, unicode_lowercase,
};

verus! {

/// System directories that are never removed, nor anything below them.
pub open spec fn dangerous_dirs() -> Seq<Seq<char>> {
    seq![
        "/"@, "/home"@, "/root"@, "/usr"@, "/bin"@, "/sbin"@, "/etc"@, "/var"@, "/sys"@,
        "/proc"@, "/dev"@, "/boot"@, "/lib"@, "/lib64"@, "/opt"@, "/srv"@
    ]
}

/// Directories of the home directory that are never removed, nor anything below them.
pub open spec fn sensitive_home_dirs() -> Seq<Seq<char>> {
    seq![".ssh"@, ".gnupg"@, ".config"@, ".local/share/keyrings"@, ".mozilla"@, ".thunderbird"@, ".docker"@]
}

/// `path` is `dir` or lies below it.
pub open spec fn at_or_below(path: Seq<char>, dir: Seq<char>) -> bool {
    path == dir || has_prefix(path, dir + "/"@)
}

/// `path`, lower-cased, is at or below one of the directories in `dirs`.
pub open spec fn below_any(path: Seq<char>, dirs: Seq<Seq<char>>) -> bool {
    exists|i: int| 0 <= i < dirs.len() && at_or_below(path, #[trigger] dirs[i])
}

/// The sensitive directories of the home directory `home`, lower-cased.
pub open spec fn sensitive_paths(home: Seq<char>) -> Seq<Seq<char>> {
    sensitive_home_dirs().map_values(|s: Seq<char>| unicode_lowercase(home) + "/"@ + s)
}

/// A path that is never removed: at or below a system directory, or at or
/// below a sensitive directory of the home directory (when there is one);
/// compared lower-cased.
pub open spec fn protected_path(path: Seq<char>, home: Option<Seq<char>>) -> bool {
    let p = unicode_lowercase(path);
    below_any(p, dangerous_dirs()) || match home {
        Some(h) => below_any(p, sensitive_paths(h)),
        None => false,
    }
}

fn at_or_below_chars(p: &[char], dir: &[char]) -> (r: bool)
    ensures
        r == at_or_below(p@, dir@),
{
    if chars_eq(p, dir) {
        return true;
    }
    let mut d: Vec<char> = vstd::slice::slice_to_vec(dir);
    d.push('/');
    assert(d@ == dir@ + "/"@) by {
        reveal_strlit("/");
    }
    starts_with(p, d.as_slice())
}

fn below_any_chars(p: &[char], dirs: &[Vec<char>]) -> (r: bool)
    ensures
        r == below_any(p@, dirs@.map_values(|d: Vec<char>| d@)),
{
    let ghost ds = dirs@.map_values(|d: Vec<char>| d@);
    let mut i: usize = 0;
    while i < dirs.len()
        invariant
            i <= dirs@.len(),
            ds == dirs@.map_values(|d: Vec<char>| d@),
            forall|k: int| 0 <= k < i ==> !at_or_below(p@, #[trigger] ds[k]),
        decreases dirs@.len() - i,
    {
        if at_or_below_chars(p, dirs[i].as_slice()) {
            assert(at_or_below(p@, ds[i as int]));
            return true;
        }
        i = i + 1;
    }
    false
}

fn dangerous_dir_list() -> (r: Vec<Vec<char>>)
    ensures
        r@.map_values(|d: Vec<char>| d@) == dangerous_dirs(),
{
    let names = [
        "/", "/home", "/root", "/usr", "/bin", "/sbin", "/etc", "/var", "/sys", "/proc", "/dev",
        "/boot", "/lib", "/lib64", "/opt", "/srv",
    ];
    let ghost dd = dangerous_dirs();
    assert forall|i: int| 0 <= i < dd.len() implies #[trigger] names@[i]@ == dd[i] by {}
    let mut r: Vec<Vec<char>> = Vec::new();
    let mut i: usize = 0;
    while i < names.len()
        invariant
            i <= names@.len(),
            names@.len() == dd.len(),
            dd == dangerous_dirs(),
            forall|k: int| 0 <= k < dd.len() ==> #[trigger] names@[k]@ == dd[k],
            r@.len() == i,
            forall|k: int| 0 <= k < i ==> #[trigger] r@[k]@ == dd[k],
        decreases names@.len() - i,
    {
        r.push(to_chars(names[i]));
        i = i + 1;
    }
    assert(r@.map_values(|d: Vec<char>| d@) =~= dd);
    r
}

fn sensitive_path_list(home: &str) -> (r: Vec<Vec<char>>)
    ensures
        r@.map_values(|d: Vec<char>| d@) == sensitive_paths(home@),
{
    let names = [".ssh", ".gnupg", ".config", ".local/share/keyrings", ".mozilla", ".thunderbird", ".docker"];
    let ghost sd = sensitive_home_dirs();
    assert forall|i: int| 0 <= i < sd.len() implies #[trigger] names@[i]@ == sd[i] by {}
    let lower = to_lowercase(home);
    let ghost sp = sensitive_paths(home@);
    let mut r: Vec<Vec<char>> = Vec::new();
    let mut i: usize = 0;
    while i < names.len()
        invariant
            i <= names@.len(),
            names@.len() == sd.len(),
            sd == sensitive_home_dirs(),
            sp == sensitive_paths(home@),
            lower@ == unicode_lowercase(home@),
            forall|k: int| 0 <= k < sd.len() ==> #[trigger] names@[k]@ == sd[k],
            r@.len() == i,
            forall|k: int| 0 <= k < i ==> #[trigger] r@[k]@ == sp[k],
        decreases names@.len() - i,
    {
        let mut s = owned(lower.as_str());
        push_str(&mut s, "/");
        push_str(&mut s, names[i]);
        r.push(to_chars(s.as_str()));
        i = i + 1;
    }
    assert(r@.map_values(|d: Vec<char>| d@) =~= sp);
    r
}

/// Whether `path` is one that is never removed; `home` is the home directory,
/// when one is known. Paths are compared lower-cased.
pub fn is_protected_path(path: &str, home: Option<&str>) -> (r: bool)
    ensures
        r == protected_path(path@, match home { Some(h) => Some(h@), None => None }),
{
    let lower = to_lowercase(path);
    let p = to_chars(lower.as_str());
    let dangerous = dangerous_dir_list();
    if below_any_chars(p.as_slice(), dangerous.as_slice()) {
        return true;
    }
    match home {
        Some(h) => {
            let sensitive = sensitive_path_list(h);
            below_any_chars(p.as_slice(), sensitive.as_slice())
        },
        None => false,
    }
}

/// What `rm` does with one path.
#[derive(Debug, Clone, Copy, PartialEq, Eq, Structural)]
pub enum RemoveStep {
    /// The path does not exist: skipped, and reported unless forced.
    Missing { report: bool },
    /// A directory without `-r`: skipped.
    NeedsRecursive,
    /// A protected path: skipped.
    Refused,
    /// Removed (or, in a dry run, listed as to be removed).
    Remove,
}

/// The step for a path: missing paths first, then directories without `-r`,
/// then protected paths; anything else is removed.
pub open spec fn remove_step_spec(exists: bool, is_dir: bool, recursive: bool, protected: bool, force: bool) -> RemoveStep {
    if !exists {
        RemoveStep::Missing { report: !force }
    } else if is_dir && !recursive {
        RemoveStep::NeedsRecursive
    } else if protected {
        RemoveStep::Refused
    } else {
        RemoveStep::Remove
    }
}

/// Decides what `rm` does with one path.
pub fn remove_step(exists: bool, is_dir: bool, recursive: bool, protected: bool, force: bool) -> (r: RemoveStep)
    ensures
        r == remove_step_spec(exists, is_dir, recursive, protected, force),
{
    if !exists {
        RemoveStep::Missing { report: !force }
    } else if is_dir && !recursive {
        RemoveStep::NeedsRecursive
    } else if protected {
        RemoveStep::Refused
    } else {
        RemoveStep::Remove
    }
}

/// What `rm` prints after its blank line: the dry-run count, or how many
/// files were removed (and skipped), or how many were skipped, or that there
/// was nothing to do.
pub open spec fn remove_report(dry_run: bool, removed: nat, skipped: nat) -> Seq<char> {
    if dry_run {
        "📋 Would remove "@ + dec_digits(removed) + " file(s), "@ + dec_digits(skipped) + " skip(s)"@
    } else if removed > 0 {
        "✅ Removed "@ + dec_digits(removed) + " file(s)"@
            + (if skipped > 0 { ", "@ + dec_digits(skipped) + " skipped"@ } else { Seq::empty() })
    } else if skipped > 0 {
        "⚠️  "@ + dec_digits(skipped) + " file(s) skipped"@
    } else {
        "📋 Nothing to do"@
    }
}

/// Builds the closing line of `rm`.
pub fn remove_summary(dry_run: bool, removed: usize, skipped: usize) -> (r: String)
    ensures
        r@ == remove_report(dry_run, removed as nat, skipped as nat),
{
    if dry_run {
        let mut s = owned("📋 Would remove ");
        push_u64(&mut s, removed as u64);
        push_str(&mut s, " file(s), ");
        push_u64(&mut s, skipped as u64);
        push_str(&mut s, " skip(s)");
        s
    } else if removed > 0 {
        let mut s = owned("✅ Removed ");
        push_u64(&mut s, removed as u64);
        push_str(&mut s, " file(s)");
        if skipped > 0 {
            push_str(&mut s, ", ");
            push_u64(&mut s, skipped as u64);
            push_str(&mut s, " skipped");
        }
        s
    } else if skipped > 0 {
        let mut s = owned("⚠️  ");
        push_u64(&mut s, skipped as u64);
        push_str(&mut s, " file(s) skipped");
        s
    } else {
        owned("📋 Nothing to do")
    }
}

} // verus!
