//! The per-directory banner cache on disk: where each directory's file lives,
//! and when that file may still be served.

use vstd::prelude::*;
use vstd::utf8::encode_utf8;
use crate::git::join_path_text;
use crate::text::{has_suffix, owned, push_char, push_str, to_chars};

verus! {

/// How long (in seconds) a banner cache file may be served; the daemon's
/// in-memory banner cache lives as long.
pub const CACHE_TTL_SECS: u64 = 300;

pub open spec fn fnv_offset() -> u64 {
    0xcbf29ce484222325
}

pub open spec fn fnv_prime() -> u64 {
    0x100000001b3
}

/// One FNV-1a round: xor in the byte, then multiply by the prime modulo 2^64.
pub open spec fn fnv_step(h: u64, b: u8) -> u64 {
    (((h ^ (b as u64)) as nat * fnv_prime() as nat) % 0x1_0000_0000_0000_0000) as u64
}

/// The FNV-1a 64-bit hash of `bytes`.
pub open spec fn fnv_hash(bytes: Seq<u8>) -> u64
    decreases bytes.len(),
{
    if bytes.len() == 0 {
        fnv_offset()
    } else {
        fnv_step(fnv_hash(bytes.drop_last()), bytes.last())
    }
}

/// FNV-1a 64-bit hash. Stable across Rust versions and platforms
/// (unlike `DefaultHasher`).
pub fn fnv1a_64(bytes: &[u8]) -> (r: u64)
    ensures
        r == fnv_hash(bytes@),
{
    let mut h: u64 = 0xcbf29ce484222325;
    let mut i: usize = 0;
    while i < bytes.len()
        invariant
            i <= bytes@.len(),
            h == fnv_hash(bytes@.take(i as int)),
        decreases bytes@.len() - i,
    {
        assert(bytes@.take(i + 1).drop_last() == bytes@.take(i as int));
        h = h ^ (bytes[i] as u64);
        h = h.wrapping_mul(0x100000001b3);
        i = i + 1;
    }
    assert(bytes@.take(bytes@.len() as int) == bytes@);
    h
}

pub open spec fn hex_char(d: nat) -> char {
    if d < 10 {
        (('0' as u32) + d) as char
    } else {
        (('a' as u32) + (d - 10)) as char
    }
}

/// The last `n` hexadecimal digits of `h`, lower case, most significant first.
pub open spec fn hex_digits(h: nat, n: nat) -> Seq<char>
    decreases n,
{
    if n == 0 {
        Seq::empty()
    } else {
        hex_digits(h / 16, (n - 1) as nat).push(hex_char(h % 16))
    }
}

pub(crate) fn hex_char_of(d: u64) -> (c: char)
    requires
        d < 16,
    ensures
        c == hex_char(d as nat),
{
    if d < 10 {
        let v: u8 = (0x30 + d) as u8;
        v as char
    } else {
        let v: u8 = (0x61 + (d - 10)) as u8;
        v as char
    }
}

fn push_hex(s: &mut String, h: u64, n: u32)
    ensures
        final(s)@ == old(s)@ + hex_digits(h as nat, n as nat),
    decreases n,
{
    if n > 0 {
        push_hex(s, h / 16, n - 1);
        push_char(s, hex_char_of(h % 16));
    }
}

/// The cache file's name: the hash as 16 lower-case hex digits, then `.json`.
pub open spec fn cache_file_name(hash: u64) -> Seq<char> {
    hex_digits(hash as nat, 16) + ".json"@
}

/// The cache file for a directory: `<data_dir>/banner_data/<hash>.json`, with
/// the FNV-1a hash of the directory's canonical path (as UTF-8 bytes). No
/// file when there is no data directory.
pub open spec fn cache_file_path_text(data_dir: Option<Seq<char>>, canonical: Seq<char>) -> Option<Seq<char>> {
    match data_dir {
        Some(d) => Some(join_path_text(join_path_text(d, "banner_data"@), cache_file_name(fnv_hash(encode_utf8(canonical))))),
        None => None,
    }
}

/// Returns the cache file path for the directory whose canonical path is
/// `canonical`, under the data directory `data_dir`.
pub fn cache_file_path(data_dir: Option<&str>, canonical: &str) -> (r: Option<String>)
    ensures
        match r {
            Some(p) => cache_file_path_text(match data_dir {
                Some(d) => Some(d@),
                None => None,
            }, canonical@) == Some(p@),
            None => data_dir is None,
        },
{
    match data_dir {
        None => None,
        Some(d) => {
            let hash = fnv1a_64(canonical.as_bytes());
            let mut name = String::new();
            push_hex(&mut name, hash, 16);
            push_str(&mut name, ".json");
            let sub = crate::git::join_path(d, "banner_data");
            Some(crate::git::join_path(sub.as_str(), name.as_str()))
        },
    }
}

/// The extensions (of a lower-cased name) whose files the daemon probes for
/// content: text, source, images, archives, videos.
pub open spec fn probe_extensions() -> Seq<Seq<char>> {
    seq![
        ".txt"@, ".md"@, ".json"@, ".js"@, ".ts"@, ".jsx"@, ".tsx"@, ".rs"@, ".py"@, ".go"@,
        ".java"@, ".rb"@, ".c"@, ".cpp"@, ".h"@, ".hpp"@, ".sh"@, ".yaml"@, ".yml"@, ".toml"@,
        ".xml"@, ".html"@, ".css"@, ".scss"@, ".png"@, ".jpg"@, ".jpeg"@, ".gif"@, ".webp"@, ".bmp"@,
        ".tiff"@, ".zip"@, ".tar"@, ".gz"@, ".mp4"@, ".mov"@, ".mkv"@, ".webm"@, ".m4v"@
    ]
}

/// The (lower-cased) name ends with one of the probed extensions.
pub open spec fn is_probe_name(lower_name: Seq<char>) -> bool {
    exists|i: int| 0 <= i < probe_extensions().len() && has_suffix(lower_name, #[trigger] probe_extensions()[i])
}

/// Returns true if the (lower-cased) file name has an extension that the
/// daemon runs a content probe on.
pub fn is_content_probe_ext(lower_name: &str) -> (r: bool)
    ensures
        r == is_probe_name(lower_name@),
{
    let exts = [
        ".txt", ".md", ".json", ".js", ".ts", ".jsx", ".tsx", ".rs", ".py", ".go",
        ".java", ".rb", ".c", ".cpp", ".h", ".hpp", ".sh", ".yaml", ".yml", ".toml",
        ".xml", ".html", ".css", ".scss", ".png", ".jpg", ".jpeg", ".gif", ".webp", ".bmp",
        ".tiff", ".zip", ".tar", ".gz", ".mp4", ".mov", ".mkv", ".webm", ".m4v",
    ];
    let ghost pe = probe_extensions();
    assert(exts@.len() == pe.len());
    assert forall|i: int| 0 <= i < pe.len() implies #[trigger] exts@[i]@ == pe[i] by {}
    let name = to_chars(lower_name);
    let mut i: usize = 0;
    while i < exts.len()
        invariant
            i <= exts@.len(),
            exts@.len() == pe.len(),
            pe == probe_extensions(),
            forall|k: int| 0 <= k < pe.len() ==> #[trigger] exts@[k]@ == pe[k],
            name@ == lower_name@,
            forall|k: int| 0 <= k < i ==> !has_suffix(lower_name@, #[trigger] pe[k]),
        decreases exts@.len() - i,
    {
        let e = to_chars(exts[i]);
        if crate::text::ends_with(name.as_slice(), e.as_slice()) {
            return true;
        }
        i = i + 1;
    }
    false
}

/// Subtrees the freshness walk skips: nothing the banner shows lives there.
pub open spec fn heavy_dir_names() -> Seq<Seq<char>> {
    seq![".git"@, "target"@, "node_modules"@, ".cache"@, ".venv"@, "build"@]
}

pub fn is_heavy_dir(name: &str) -> (r: bool)
    ensures
        r == heavy_dir_names().contains(name@),
{
    let names = [".git", "target", "node_modules", ".cache", ".venv", "build"];
    let ghost hn = heavy_dir_names();
    assert forall|i: int| 0 <= i < hn.len() implies #[trigger] names@[i]@ == hn[i] by {}
    let mut i: usize = 0;
    while i < names.len()
        invariant
            i <= names@.len(),
            names@.len() == hn.len(),
            hn == heavy_dir_names(),
            forall|k: int| 0 <= k < hn.len() ==> #[trigger] names@[k]@ == hn[k],
            forall|k: int| 0 <= k < i ==> hn[k] != name@,
        decreases names@.len() - i,
    {
        if crate::text::str_eq(name, names[i]) {
            assert(hn[i as int] == name@);
            return true;
        }
        i = i + 1;
    }
    assert(!hn.contains(name@)) by {
        if hn.contains(name@) {
            let k = choose|k: int| 0 <= k < hn.len() && hn[k] == name@;
        }
    }
    false
}

/// Deepest level below the directory the freshness walk looks at.
pub const FRESH_WALK_MAX_DEPTH: usize = 8;

/// Most entries the freshness walk looks at in all.
pub const FRESH_WALK_MAX_ENTRIES: usize = 8192;

/// The freshness walk may read a directory at `depth` after `visited`
/// entries.
pub fn fresh_walk_may_enter(depth: usize, visited: usize) -> (r: bool)
    ensures
        r == (depth <= FRESH_WALK_MAX_DEPTH && visited < FRESH_WALK_MAX_ENTRIES),
{
    depth <= FRESH_WALK_MAX_DEPTH && visited < FRESH_WALK_MAX_ENTRIES
}

/// What the freshness walk does with one entry.
#[derive(Debug, Clone, Copy, PartialEq, Eq, Structural)]
pub enum FreshEntry {
    /// Not looked at.
    Ignore,
    /// A probed file: its modification time counts.
    File,
    /// A directory that is not a heavy subtree: walked one level deeper.
    Descend,
}

/// The freshness walk takes the modification time of each file whose (ASCII
/// lower-cased) name has a probed extension, and walks into every directory
/// outside the heavy subtrees; anything else is passed over.
pub open spec fn fresh_entry_spec(name: Seq<char>, is_file: bool, is_dir: bool) -> FreshEntry {
    if is_file {
        if is_probe_name(crate::text::ascii_lower_seq(name)) {
            FreshEntry::File
        } else {
            FreshEntry::Ignore
        }
    } else if is_dir && !heavy_dir_names().contains(name) {
        FreshEntry::Descend
    } else {
        FreshEntry::Ignore
    }
}

pub fn fresh_entry(name: &str, is_file: bool, is_dir: bool) -> (r: FreshEntry)
    ensures
        r == fresh_entry_spec(name@, is_file, is_dir),
{
    if is_file {
        let lower = crate::text::to_ascii_lowercase(name);
        if is_content_probe_ext(lower.as_str()) {
            FreshEntry::File
        } else {
            FreshEntry::Ignore
        }
    } else if is_dir && !is_heavy_dir(name) {
        FreshEntry::Descend
    } else {
        FreshEntry::Ignore
    }
}

/// The cache file may be served: it exists and is no directory (its
/// metadata `cache_file` gives whether it is a directory and its
/// modification time), it is not from the future and younger than the TTL,
/// and neither the directory itself (`dir_mtime`) nor any probed file below
/// it (`newest_child_mtime`) changed after it was written. Times are in
/// nanoseconds since the Unix epoch; `now` is the current time.
pub open spec fn cache_fresh(cache_file: Option<(bool, Option<i128>)>, now: i128, dir_mtime: Option<i128>, newest_child_mtime: Option<i128>) -> bool {
    match cache_file {
        Some((false, Some(f))) => {
            &&& now >= f
            &&& now - f < CACHE_TTL_SECS * 1_000_000_000
            &&& (dir_mtime matches Some(d) ==> d <= f)
            &&& (newest_child_mtime matches Some(c) ==> c <= f)
        },
        _ => false,
    }
}

/// Whether the banner cache file can still be served (see `cache_fresh`).
pub fn is_cache_fresh(cache_file: Option<(bool, Option<i128>)>, now: i128, dir_mtime: Option<i128>, newest_child_mtime: Option<i128>) -> (r: bool)
    ensures
        r == cache_fresh(cache_file, now, dir_mtime, newest_child_mtime),
{
    let f = match cache_file {
        Some((false, Some(f))) => f,
        _ => {
            return false;
        },
    };
    if now < f {
        return false;
    }
    match now.checked_sub(f) {
        Some(age) => {
            if age >= 300_000_000_000 {
                return false;
            }
        },
        None => {
            return false;
        },
    }
    if let Some(d) = dir_mtime {
        if d > f {
            return false;
        }
    }
    if let Some(c) = newest_child_mtime {
        if c > f {
            return false;
        }
    }
    true
}

/// No cache file, or a directory standing where it should be, is never
/// fresh.
pub proof fn missing_cache_is_stale(mtime: Option<i128>, now: i128, dir_mtime: Option<i128>, newest_child_mtime: Option<i128>)
    ensures
        !cache_fresh(None, now, dir_mtime, newest_child_mtime),
        !cache_fresh(Some((true, mtime)), now, dir_mtime, newest_child_mtime),
{
}

/// A cache file written at `written`, less than the TTL ago, with nothing in
/// the directory changed since, is fresh.
pub proof fn just_written_cache_is_fresh(written: i128, now: i128, dir_mtime: Option<i128>, newest_child_mtime: Option<i128>)
    requires
        written <= now < written + CACHE_TTL_SECS * 1_000_000_000,
        dir_mtime matches Some(d) ==> d <= written,
        newest_child_mtime matches Some(c) ==> c <= written,
    ensures
        cache_fresh(Some((false, Some(written))), now, dir_mtime, newest_child_mtime),
{
}

} // verus!
