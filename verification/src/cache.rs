//! File-based TTL cache for expensive checks: where an entry lives and when
//! it is still valid.

use vstd::prelude::*;
use std::hash::{Hash, Hasher};
use crate::datacache::hex_digits;
use crate::git::join_path_text;
use crate::text::{owned, push_char, push_str};

verus! {

/// File-based TTL cache rooted at `dir`.
pub struct Cache {
    pub dir: String,
}

/// What `DefaultHasher` (created with `DefaultHasher::new`) gives for a string key.
pub uninterp spec fn default_hash(key: Seq<char>) -> u64;

/// Hashes `key` with `std`'s `DefaultHasher` (`Hash::hash`, then `Hasher::finish`).
#[verifier::external_body]
fn hash_key(key: &str) -> (r: u64)
    ensures
        r == default_hash(key@),
{
    let mut hasher = std::collections::hash_map::DefaultHasher::new();
    key.hash(&mut hasher);
    hasher.finish()
}

fn push_hex16(s: &mut String, h: u64, n: u32)
    ensures
        final(s)@ == old(s)@ + hex_digits(h as nat, n as nat),
    decreases n,
{
    if n > 0 {
        push_hex16(s, h / 16, n - 1);
        let d = h % 16;
        let c: char = if d < 10 {
            let v: u8 = (0x30 + d) as u8;
            v as char
        } else {
            let v: u8 = (0x61 + (d - 10)) as u8;
            v as char
        };
        push_char(s, c);
    }
}

impl Cache {
    /// The file for `key`: the key's hash as 16 hex digits, `.json`, in the cache directory.
    pub open spec fn path_for_spec(&self, key: Seq<char>) -> Seq<char> {
        join_path_text(self.dir@, hex_digits(default_hash(key) as nat, 16) + ".json"@)
    }

    /// Get cache file path for a given key
    pub fn path_for(&self, key: &str) -> (r: String)
        ensures
            r@ == self.path_for_spec(key@),
    {
        let h = hash_key(key);
        let mut name = String::new();
        push_hex16(&mut name, h, 16);
        push_str(&mut name, ".json");
        crate::git::join_path(self.dir.as_str(), name.as_str())
    }
}

/// Build a cache key from a path and a feature name
pub fn cache_key(path: &str, feature: &str) -> (r: String)
    ensures
        r@ == path@ + ":"@ + feature@,
{
    let mut s = owned(path);
    push_str(&mut s, ":");
    push_str(&mut s, feature);
    s
}

/// An entry stored at `timestamp_ms` is still valid at `now_ms` for a
/// time-to-live of `ttl_ms` (a timestamp from the future counts as age 0).
pub open spec fn entry_fresh(now_ms: u64, timestamp_ms: u64, ttl_ms: u64) -> bool {
    (if now_ms >= timestamp_ms { now_ms - timestamp_ms } else { 0 }) < ttl_ms
}

pub fn is_entry_fresh(now_ms: u64, timestamp_ms: u64, ttl_ms: u64) -> (r: bool)
    ensures
        r == entry_fresh(now_ms, timestamp_ms, ttl_ms),
{
    now_ms.saturating_sub(timestamp_ms) < ttl_ms
}

/// Cleanup removes an entry older than `max_age_ms`.
pub open spec fn entry_expired(now_ms: u64, timestamp_ms: u64, max_age_ms: u64) -> bool {
    (if now_ms >= timestamp_ms { now_ms - timestamp_ms } else { 0 }) > max_age_ms
}

pub fn is_entry_expired(now_ms: u64, timestamp_ms: u64, max_age_ms: u64) -> (r: bool)
    ensures
        r == entry_expired(now_ms, timestamp_ms, max_age_ms),
{
    now_ms.saturating_sub(timestamp_ms) > max_age_ms
}

/// The files of `stamps` (each with the timestamp read from it, when the file
/// could be read and holds one) that cleanup removes, in the order given.
pub open spec fn expired_files(stamps: Seq<(Seq<char>, Option<u64>)>, now_ms: u64, max_age_ms: u64) -> Seq<Seq<char>>
    decreases stamps.len(),
{
    if stamps.len() == 0 {
        Seq::empty()
    } else {
        let rest = expired_files(stamps.drop_last(), now_ms, max_age_ms);
        match stamps.last().1 {
            Some(ts) => if entry_expired(now_ms, ts, max_age_ms) { rest.push(stamps.last().0) } else { rest },
            None => rest,
        }
    }
}

pub open spec fn stamps_view(v: Seq<(String, Option<u64>)>) -> Seq<(Seq<char>, Option<u64>)> {
    v.map_values(|e: (String, Option<u64>)| (e.0@, e.1))
}

impl Cache {
    /// Clear expired entries: of the cache's files with their timestamps (when
    /// a file could be read and holds one), those older than `max_age_ms`
    /// at `now_ms`, which the caller removes.
    pub fn cleanup(&self, now_ms: u64, max_age_ms: u64, stamps: &[(String, Option<u64>)]) -> (r: Vec<String>)
        ensures
            crate::text::views(r@) == expired_files(stamps_view(stamps@), now_ms, max_age_ms),
    {
        let mut r: Vec<String> = Vec::new();
        let mut i: usize = 0;
        while i < stamps.len()
            invariant
                i <= stamps@.len(),
                crate::text::views(r@) == expired_files(stamps_view(stamps@).take(i as int), now_ms, max_age_ms),
            decreases stamps@.len() - i,
        {
            assert(stamps_view(stamps@).take(i + 1).drop_last() == stamps_view(stamps@).take(i as int));
            assert(stamps_view(stamps@).take(i + 1).last() == (stamps@[i as int].0@, stamps@[i as int].1));
            if let Some(ts) = stamps[i].1 {
                if is_entry_expired(now_ms, ts, max_age_ms) {
                    let ghost before = r@;
                    r.push(owned(stamps[i].0.as_str()));
                    assert(crate::text::views(r@) == crate::text::views(before).push(stamps@[i as int].0@));
                }
            }
            i = i + 1;
        }
        assert(stamps_view(stamps@).take(stamps@.len() as int) == stamps_view(stamps@));
        r
    }
}

/// An entry is never both still valid and due for removal under the same limit.
pub proof fn fresh_entries_are_kept(now_ms: u64, timestamp_ms: u64, limit_ms: u64)
    ensures
        entry_fresh(now_ms, timestamp_ms, limit_ms) ==> !entry_expired(now_ms, timestamp_ms, limit_ms),
{
}

} // verus!
