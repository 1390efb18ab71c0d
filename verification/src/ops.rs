//! File operations: what copy and move do with each source, where it goes,
//! what they report, and the trash's records.

use vstd::prelude::*;
use crate::datacache::hex_char;
use crate::git::{join_path, join_path_text};
use crate::text::{dec_digits, has_suffix, owned, push_char, push_str, push_u64, to_chars};

verus! {

/// What to do with a source whose destination already exists.
#[derive(Debug, Clone, Copy, PartialEq, Eq, Structural)]
pub enum CollisionAction {
    Skip,
    Overwrite,
    Rename,
    Ask,
}

/// On a collision, copy and move overwrite when asked to, else rename when
/// asked to, else skip; they never ask.
pub open spec fn collision_spec(overwrite: bool, rename_on_collision: bool) -> CollisionAction {
    if overwrite {
        CollisionAction::Overwrite
    } else if rename_on_collision {
        CollisionAction::Rename
    } else {
        CollisionAction::Skip
    }
}

/// Decides [`collision_spec`].
pub fn collision_action(overwrite: bool, rename_on_collision: bool) -> (r: CollisionAction)
    ensures
        r == collision_spec(overwrite, rename_on_collision),
{
    if overwrite {
        CollisionAction::Overwrite
    } else if rename_on_collision {
        CollisionAction::Rename
    } else {
        CollisionAction::Skip
    }
}

/// One source's fate in a copy or move.
#[derive(Debug, Clone, Copy, PartialEq, Eq, Structural)]
pub enum TransferStep {
    /// The source does not exist: counted as skipped.
    SkipMissing,
    /// The destination exists and is kept: counted as skipped.
    SkipExisting,
    /// The destination is removed first, then the source goes there.
    Overwrite,
    /// The source goes to a fresh name next to the destination.
    Rename,
    /// The source goes to the destination.
    Plain,
}

/// The step for one source.
pub fn transfer_step(source_exists: bool, dest_exists: bool, overwrite: bool, rename_on_collision: bool) -> (r: TransferStep)
    ensures
        r == (if !source_exists {
            TransferStep::SkipMissing
        } else if !dest_exists {
            TransferStep::Plain
        } else {
            match collision_spec(overwrite, rename_on_collision) {
                CollisionAction::Overwrite => TransferStep::Overwrite,
                CollisionAction::Rename => TransferStep::Rename,
                _ => TransferStep::SkipExisting,
            }
        }),
{
    if !source_exists {
        TransferStep::SkipMissing
    } else if !dest_exists {
        TransferStep::Plain
    } else {
        match collision_action(overwrite, rename_on_collision) {
            CollisionAction::Overwrite => TransferStep::Overwrite,
            CollisionAction::Rename => TransferStep::Rename,
            _ => TransferStep::SkipExisting,
        }
    }
}

/// The destination counts as a directory when it is one on disk or its
/// path ends with `/`.
pub fn dest_is_directory(is_dir_on_disk: bool, dest: &str) -> (r: bool)
    ensures
        r == (is_dir_on_disk || has_suffix(dest@, "/"@)),
{
    if is_dir_on_disk {
        return true;
    }
    let d = to_chars(dest);
    let slash = to_chars("/");
    crate::text::ends_with(d.as_slice(), slash.as_slice())
}

/// Where a source goes: into a directory destination under the source's
/// file name (`None` for a source without one), else to the destination.
pub fn transfer_destination(dest: &str, dest_is_dir: bool, file_name: Option<&str>) -> (r: Option<String>)
    ensures
        dest_is_dir ==> match file_name {
            Some(f) => r matches Some(p) && p@ == join_path_text(dest@, f@),
            None => r is None,
        },
        !dest_is_dir ==> (r matches Some(p) && p@ == dest@),
{
    if dest_is_dir {
        match file_name {
            Some(f) => Some(join_path(dest, f)),
            None => None,
        }
    } else {
        Some(owned(dest))
    }
}

/// The closing line of a dry run: `📋 Would copy 2 file(s), 1 overwrite(s), 0 skip(s)`.
pub open spec fn dry_run_text(verb: Seq<char>, done: nat, overwritten: nat, skipped: nat) -> Seq<char> {
    "📋 Would "@ + verb + " "@ + dec_digits(done) + " file(s), "@ + dec_digits(overwritten) + " overwrite(s), "@
        + dec_digits(skipped) + " skip(s)"@
}

/// Builds the closing line of a dry run.
pub fn dry_run_summary(verb: &str, done: usize, overwritten: usize, skipped: usize) -> (r: String)
    ensures
        r@ == dry_run_text(verb@, done as nat, overwritten as nat, skipped as nat),
{
    let mut s = owned("📋 Would ");
    push_str(&mut s, verb);
    push_str(&mut s, " ");
    push_u64(&mut s, done as u64);
    push_str(&mut s, " file(s), ");
    push_u64(&mut s, overwritten as u64);
    push_str(&mut s, " overwrite(s), ");
    push_u64(&mut s, skipped as u64);
    push_str(&mut s, " skip(s)");
    s
}

/// The trash's record of its items.
#[derive(Debug)]
pub struct TrashManifest {
    pub items: Vec<TrashItem>,
}

/// One trashed file: its id, where it was, where it is now, when it was
/// deleted, and its size.
#[derive(Debug, Clone)]
pub struct TrashItem {
    pub id: String,
    pub original_path: String,
    pub trash_path: String,
    pub deleted_at: String,
    pub original_size: u64,
}

impl TrashManifest {
    /// An empty record of trashed files.
    pub fn new() -> (r: TrashManifest)
        ensures
            r.items@.len() == 0,
    {
        TrashManifest { items: Vec::new() }
    }

    /// Records a trashed file after the others.
    pub fn record(&mut self, item: TrashItem)
        ensures
            final(self).items@ == old(self).items@.push(item),
    {
        self.items.push(item);
    }
}

/// Lower-case hexadecimal digits of `n`, without leading zeros (`{:x}`).
pub open spec fn hex_text(n: nat) -> Seq<char>
    decreases n,
{
    if n < 16 {
        seq![hex_char(n)]
    } else {
        hex_text(n / 16).push(hex_char(n % 16))
    }
}

fn push_hex(s: &mut String, n: u128)
    ensures
        final(s)@ == old(s)@ + hex_text(n as nat),
    decreases n,
{
    if n >= 16 {
        push_hex(s, n / 16);
    }
    let d: u128 = n % 16;
    let c = crate::datacache::hex_char_of(d as u64);
    push_char(s, c);
}

/// The id of a trashed file: the time of trashing in nanoseconds, in hexadecimal.
pub fn trash_id(nanos: u128) -> (r: String)
    ensures
        r@ == hex_text(nanos as nat),
{
    let mut s = String::new();
    push_hex(&mut s, nanos);
    s
}

/// What `trash` reports after its blank line: how many files went to the
/// trash (and how many were skipped) with the hint to restore them, or how
/// many were skipped, or that there was nothing to do.
pub open spec fn trash_report(trashed: nat, skipped: nat) -> Seq<Seq<char>> {
    if trashed > 0 {
        seq![
            "🗑️  Moved "@ + dec_digits(trashed) + " file(s) to trash"@
                + (if skipped > 0 { ", "@ + dec_digits(skipped) + " skipped"@ } else { Seq::empty() }),
            "💡 Use 'fm restore-trash' to recover files"@
        ]
    } else if skipped > 0 {
        seq!["⚠️  "@ + dec_digits(skipped) + " file(s) skipped"@]
    } else {
        seq!["📋 Nothing to do"@]
    }
}

/// Builds the lines of the trash report.
pub fn trash_summary_lines(trashed: usize, skipped: usize) -> (r: Vec<String>)
    ensures
        r@.len() == trash_report(trashed as nat, skipped as nat).len(),
        forall|i: int| 0 <= i < r@.len() ==> #[trigger] r@[i]@ == trash_report(trashed as nat, skipped as nat)[i],
{
    let mut r: Vec<String> = Vec::new();
    if trashed > 0 {
        let mut a = owned("🗑️  Moved ");
        push_u64(&mut a, trashed as u64);
        push_str(&mut a, " file(s) to trash");
        if skipped > 0 {
            push_str(&mut a, ", ");
            push_u64(&mut a, skipped as u64);
            push_str(&mut a, " skipped");
        }
        r.push(a);
        r.push(owned("💡 Use 'fm restore-trash' to recover files"));
    } else if skipped > 0 {
        let mut a = owned("⚠️  ");
        push_u64(&mut a, skipped as u64);
        push_str(&mut a, " file(s) skipped");
        r.push(a);
    } else {
        r.push(owned("📋 Nothing to do"));
    }
    r
}

/// What `open` reports: how many files it opened, and how many failed,
/// each line only where its count is not zero.
pub open spec fn open_report(opened: nat, failed: nat) -> Seq<Seq<char>> {
    (if opened > 0 { seq!["✅ Opened "@ + dec_digits(opened) + " file(s)"@] } else { Seq::empty() })
        + (if failed > 0 { seq!["⚠️  "@ + dec_digits(failed) + " failed"@] } else { Seq::empty() })
}

/// Builds the lines of the `open` report.
pub fn open_summary_lines(opened: usize, failed: usize) -> (r: Vec<String>)
    ensures
        r@.len() == open_report(opened as nat, failed as nat).len(),
        forall|i: int| 0 <= i < r@.len() ==> #[trigger] r@[i]@ == open_report(opened as nat, failed as nat)[i],
{
    let mut r: Vec<String> = Vec::new();
    if opened > 0 {
        let mut a = owned("✅ Opened ");
        push_u64(&mut a, opened as u64);
        push_str(&mut a, " file(s)");
        r.push(a);
    }
    if failed > 0 {
        let mut b = owned("⚠️  ");
        push_u64(&mut b, failed as u64);
        push_str(&mut b, " failed");
        r.push(b);
    }
    r
}

/// What `root` prints for the repository root: a `cd` command for the shell
/// to run, or the root itself.
pub fn root_line(root: &str, print_cd: bool) -> (r: String)
    ensures
        r@ == (if print_cd { "cd '"@ + root@ + "'"@ } else { "📁 "@ + root@ }),
{
    if print_cd {
        let mut s = owned("cd '");
        push_str(&mut s, root);
        push_str(&mut s, "'");
        s
    } else {
        let mut s = owned("📁 ");
        push_str(&mut s, root);
        s
    }
}

} // verus!
