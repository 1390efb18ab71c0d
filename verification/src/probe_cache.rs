//! Content-probe cache: the result of probing a file (or counting a
//! directory) keyed by path, size and modification time, bounded in size by
//! evicting the oldest entries in batches.

use vstd::prelude::*;
use crate::text::str_eq;

verus! {

/// Most entries the cache holds.
pub const MAX_ENTRIES: usize = 4096;

pub const PROBE_KIND_FILE: u8 = 1;

pub const PROBE_KIND_DIR_COUNT: u8 = 2;

/// What a probe result is cached under. Two keys with the same path but
/// another size or modification time stand for different file contents; the
/// kind keeps a file's probe apart from a directory's child count.
#[derive(Debug, Clone)]
pub struct CacheKey {
    pub path: String,
    pub size: u64,
    /// Nanoseconds since the Unix epoch, when known.
    pub mtime_nanos: Option<i128>,
    pub kind: u8,
}

pub type KeyView = (Seq<char>, u64, Option<i128>, u8);

impl CacheKey {
    pub open spec fn kv(&self) -> KeyView {
        (self.path@, self.size, self.mtime_nanos, self.kind)
    }

    /// Build a cache key for a single file's content probe.
    pub fn for_file(path: &str, size: u64, mtime_nanos: Option<i128>) -> (r: CacheKey)
        ensures
            r.kv() == (path@, size, mtime_nanos, PROBE_KIND_FILE),
    {
        CacheKey { path: crate::text::owned(path), size, mtime_nanos, kind: PROBE_KIND_FILE }
    }

    /// Build a cache key for a directory's child count.
    pub fn for_dir(path: &str, size: u64, mtime_nanos: Option<i128>) -> (r: CacheKey)
        ensures
            r.kv() == (path@, size, mtime_nanos, PROBE_KIND_DIR_COUNT),
    {
        CacheKey { path: crate::text::owned(path), size, mtime_nanos, kind: PROBE_KIND_DIR_COUNT }
    }

    fn same_as(&self, other: &CacheKey) -> (r: bool)
        ensures
            r == (self.kv() == other.kv()),
    {
        self.size == other.size && self.mtime_nanos == other.mtime_nanos && self.kind == other.kind
            && str_eq(self.path.as_str(), other.path.as_str())
    }
}

struct ProbeEntry {
    key: CacheKey,
    /// Insertion counter value: smaller is older.
    order: u64,
    value: String,
}

/// The probe cache. Its model (`view`) maps each key to its value and to the
/// insertion counter value it got.
pub struct ProbeCache {
    entries: Vec<ProbeEntry>,
    next_order: u64,
}

spec fn keys_of(s: Seq<ProbeEntry>) -> Seq<KeyView> {
    s.map_values(|e: ProbeEntry| e.key.kv())
}

spec fn find(s: Seq<ProbeEntry>, k: KeyView) -> int {
    choose|i: int| 0 <= i < s.len() && s[i].key.kv() == k
}

spec fn model(s: Seq<ProbeEntry>) -> Map<KeyView, (Seq<char>, u64)> {
    Map::new(|k: KeyView| keys_of(s).contains(k), |k: KeyView| (s[find(s, k)].value@, s[find(s, k)].order))
}

proof fn lemma_find(s: Seq<ProbeEntry>, i: int)
    requires
        keys_of(s).no_duplicates(),
        0 <= i < s.len(),
    ensures
        find(s, s[i].key.kv()) == i,
        model(s).contains_key(s[i].key.kv()),
        model(s)[s[i].key.kv()] == (s[i].value@, s[i].order),
{
    assert(keys_of(s)[i] == s[i].key.kv());
    let j = find(s, s[i].key.kv());
    assert(keys_of(s)[j] == keys_of(s)[i]);
}

proof fn lemma_contains(s: Seq<ProbeEntry>, k: KeyView)
    ensures
        model(s).contains_key(k) <==> exists|i: int| 0 <= i < s.len() && s[i].key.kv() == k,
{
    if model(s).contains_key(k) {
        let i = choose|i: int| 0 <= i < keys_of(s).len() && keys_of(s)[i] == k;
        assert(s[i].key.kv() == k);
    }
    if exists|i: int| 0 <= i < s.len() && s[i].key.kv() == k {
        let i = choose|i: int| 0 <= i < s.len() && s[i].key.kv() == k;
        assert(keys_of(s)[i] == k);
    }
}

proof fn lemma_len(s: Seq<ProbeEntry>)
    requires
        keys_of(s).no_duplicates(),
    ensures
        model(s).dom() == keys_of(s).to_set(),
        model(s).len() == s.len(),
        model(s).dom().finite(),
{
    assert(model(s).dom() =~= keys_of(s).to_set());
    keys_of(s).unique_seq_to_set();
    broadcast use vstd::seq_lib::seq_to_set_is_finite;
}

/// `after` is `before` with its oldest entry `evicted` (no entry has a
/// smaller insertion counter value) removed and `k` added; the kept entries
/// are unchanged.
pub open spec fn eviction(before: Map<KeyView, (Seq<char>, u64)>, after: Map<KeyView, (Seq<char>, u64)>, evicted: KeyView, k: KeyView) -> bool {
    &&& before.contains_key(evicted)
    &&& forall|j: KeyView| #[trigger] before.contains_key(j) ==> before[evicted].1 <= before[j].1
    &&& after.dom() == before.dom().remove(evicted).insert(k)
    &&& forall|j: KeyView| #[trigger] after.contains_key(j) && j != k ==> after[j] == before[j]
}

impl ProbeCache {
    /// What the cache holds: each key's value and insertion counter value.
    pub closed spec fn view(&self) -> Map<KeyView, (Seq<char>, u64)> {
        model(self.entries@)
    }

    /// The insertion counter value the next entry gets.
    pub closed spec fn counter(&self) -> u64 {
        self.next_order
    }

    /// Keys are unique and the cache is within its bound.
    pub closed spec fn wf(&self) -> bool {
        &&& keys_of(self.entries@).no_duplicates()
        &&& self.entries@.len() <= MAX_ENTRIES
    }

    pub proof fn lemma_wf_bounds(&self)
        requires
            self.wf(),
        ensures
            self@.dom().finite(),
            self@.len() <= MAX_ENTRIES,
    {
        lemma_len(self.entries@);
    }

    /// An empty cache.
    pub fn new() -> (r: ProbeCache)
        ensures
            r.wf(),
            r@ == Map::<KeyView, (Seq<char>, u64)>::empty(),
            r.counter() == 0,
    {
        let r = ProbeCache { entries: Vec::new(), next_order: 0 };
        assert(r@ =~= Map::<KeyView, (Seq<char>, u64)>::empty());
        r
    }

    fn index_of(&self, key: &CacheKey) -> (r: Option<usize>)
        requires
            self.wf(),
        ensures
            match r {
                Some(i) => i < self.entries@.len() && self.entries@[i as int].key.kv() == key.kv(),
                None => !self@.contains_key(key.kv()),
            },
    {
        let mut i: usize = 0;
        while i < self.entries.len()
            invariant
                i <= self.entries@.len(),
                forall|j: int| 0 <= j < i ==> self.entries@[j].key.kv() != key.kv(),
            decreases self.entries@.len() - i,
        {
            if self.entries[i].key.same_as(key) {
                return Some(i);
            }
            i = i + 1;
        }
        proof {
            lemma_contains(self.entries@, key.kv());
        }
        None
    }

    /// Look up a cached probe result for the given key.
    pub fn get(&self, key: &CacheKey) -> (r: Option<String>)
        requires
            self.wf(),
        ensures
            match r {
                Some(v) => self@.contains_key(key.kv()) && v@ == self@[key.kv()].0,
                None => !self@.contains_key(key.kv()),
            },
    {
        match self.index_of(key) {
            Some(i) => {
                proof {
                    lemma_find(self.entries@, i as int);
                }
                Some(crate::text::owned(self.entries[i].value.as_str()))
            },
            None => None,
        }
    }

    /// Number of entries currently in the cache.
    pub fn len(&self) -> (r: usize)
        requires
            self.wf(),
        ensures
            r == self@.len(),
    {
        proof {
            lemma_len(self.entries@);
        }
        self.entries.len()
    }

    /// Removes the entry with the smallest insertion counter value.
    fn evict_oldest(&mut self) -> (gk: Ghost<KeyView>)
        requires
            old(self).wf(),
            old(self).entries@.len() > 0,
        ensures
            final(self).wf(),
            old(self)@.contains_key(gk@),
            final(self)@ == old(self)@.remove(gk@),
            forall|j: KeyView| #[trigger] old(self)@.contains_key(j) ==> old(self)@[gk@].1 <= old(self)@[j].1,
            final(self).next_order == old(self).next_order,
            final(self).entries@.len() == old(self).entries@.len() - 1,
    {
        let mut m: usize = 0;
        let mut i: usize = 1;
        while i < self.entries.len()
            invariant
                0 < self.entries@.len(),
                m < self.entries@.len(),
                1 <= i <= self.entries@.len(),
                forall|j: int| 0 <= j < i ==> self.entries@[m as int].order <= #[trigger] self.entries@[j].order,
            decreases self.entries@.len() - i,
        {
            if self.entries[i].order < self.entries[m].order {
                m = i;
            }
            i = i + 1;
        }
        let ghost old_entries = self.entries@;
        let ghost k = old_entries[m as int].key.kv();
        proof {
            lemma_find(old_entries, m as int);
            assert forall|j: KeyView| #[trigger] model(old_entries).contains_key(j) implies model(old_entries)[k].1 <= model(old_entries)[j].1 by {
                lemma_contains(old_entries, j);
                let t = choose|t: int| 0 <= t < old_entries.len() && old_entries[t].key.kv() == j;
                lemma_find(old_entries, t);
            }
        }
        self.entries.remove(m);
        proof {
            let ne = self.entries@;
            assert(ne == old_entries.remove(m as int));
            assert(keys_of(ne) == keys_of(old_entries).remove(m as int));
            assert(keys_of(ne).no_duplicates()) by {
                assert forall|a: int, b: int| 0 <= a < keys_of(ne).len() && 0 <= b < keys_of(ne).len() && a != b implies keys_of(ne)[a] != keys_of(ne)[b] by {
                    let a2 = if a < m { a } else { a + 1 };
                    let b2 = if b < m { b } else { b + 1 };
                    assert(keys_of(ne)[a] == keys_of(old_entries)[a2]);
                    assert(keys_of(ne)[b] == keys_of(old_entries)[b2]);
                }
            }
            assert forall|j: KeyView| #[trigger] model(ne).contains_key(j) <==> model(old_entries).remove(k).contains_key(j) by {
                lemma_contains(ne, j);
                lemma_contains(old_entries, j);
                if model(ne).contains_key(j) {
                    let t = choose|t: int| 0 <= t < ne.len() && ne[t].key.kv() == j;
                    let t2 = if t < m { t } else { t + 1 };
                    assert(old_entries[t2].key.kv() == j);
                    assert(keys_of(old_entries)[t2] != keys_of(old_entries)[m as int]);
                }
                if model(old_entries).remove(k).contains_key(j) {
                    let t = choose|t: int| 0 <= t < old_entries.len() && old_entries[t].key.kv() == j;
                    assert(t != m);
                    let t2 = if t < m { t } else { t - 1 };
                    assert(ne[t2].key.kv() == j);
                }
            }
            assert forall|j: KeyView| #[trigger] model(ne).contains_key(j) implies model(ne)[j] == model(old_entries)[j] by {
                lemma_contains(ne, j);
                let t = choose|t: int| 0 <= t < ne.len() && ne[t].key.kv() == j;
                let t2 = if t < m { t } else { t + 1 };
                lemma_find(ne, t);
                lemma_find(old_entries, t2);
            }
            assert(model(ne) =~= model(old_entries).remove(k));
        }
        Ghost(k)
    }

    /// Insert a probe result. A new key arriving in a full cache first evicts
    /// the oldest entry (by insertion order) to make room.
    pub fn put(&mut self, key: CacheKey, value: String)
        requires
            old(self).wf(),
        ensures
            final(self).wf(),
            final(self)@.contains_key(key.kv()),
            final(self)@[key.kv()].0 == value@,
            final(self)@[key.kv()].1 == old(self).counter(),
            final(self).counter() == (if old(self).counter() == u64::MAX { 0 } else { old(self).counter() + 1 }),
            old(self)@.contains_key(key.kv()) || old(self)@.len() < MAX_ENTRIES ==> {
                &&& final(self)@.dom() == old(self)@.dom().insert(key.kv())
                &&& forall|j: KeyView| #[trigger] final(self)@.contains_key(j) && j != key.kv() ==> final(self)@[j] == old(self)@[j]
            },
            !old(self)@.contains_key(key.kv()) && old(self)@.len() >= MAX_ENTRIES ==> exists|evicted: KeyView| #[trigger] eviction(old(self)@, final(self)@, evicted, key.kv()),
            !old(self)@.contains_key(key.kv()) && old(self)@.len() >= MAX_ENTRIES ==> final(self)@.len() == old(self)@.len(),
    {
        proof {
            lemma_len(self.entries@);
        }
        let found = self.index_of(&key);
        let order = self.next_order;
        let ghost m0 = self@;
        let ghost kv0 = key.kv();
        let ghost mut evicted: KeyView = kv0;
        match found {
            Some(i) => {
                let ghost old_entries = self.entries@;
                proof {
                    lemma_find(old_entries, i as int);
                }
                let kk = key;
                self.entries.set(i, ProbeEntry { key: kk, order, value });
                proof {
                    let ne = self.entries@;
                    assert(keys_of(ne) =~= keys_of(old_entries));
                    lemma_find(ne, i as int);
                    assert forall|j: KeyView| #[trigger] model(ne).contains_key(j) <==> model(old_entries).contains_key(j) by {}
                    assert forall|j: KeyView| #[trigger] model(ne).contains_key(j) && j != ne[i as int].key.kv() implies model(ne)[j] == model(old_entries)[j] by {
                        lemma_contains(ne, j);
                        let t = choose|t: int| 0 <= t < ne.len() && ne[t].key.kv() == j;
                        lemma_find(ne, t);
                        lemma_find(old_entries, t);
                    }
                    assert(model(ne).dom() =~= model(old_entries).dom().insert(ne[i as int].key.kv()));
                }
            },
            None => {
                if self.entries.len() >= MAX_ENTRIES {
                    let gk = self.evict_oldest();
                    proof {
                        evicted = gk@;
                    }
                }
                let ghost before_insert = self.entries@;
                let ghost mb = self@;
                proof {
                    lemma_len(before_insert);
                }
                self.entries.push(ProbeEntry { key, order, value });
                proof {
                    let ne = self.entries@;
                    let kv = ne[ne.len() - 1].key.kv();
                    assert(!mb.contains_key(kv));
                    assert(keys_of(ne) == keys_of(before_insert).push(kv));
                    assert(keys_of(ne).no_duplicates()) by {
                        assert forall|a: int, b: int| 0 <= a < keys_of(ne).len() && 0 <= b < keys_of(ne).len() && a != b implies keys_of(ne)[a] != keys_of(ne)[b] by {
                            if a == ne.len() - 1 {
                                lemma_contains(before_insert, keys_of(ne)[b]);
                                assert(before_insert[b].key.kv() == keys_of(ne)[b]);
                            } else if b == ne.len() - 1 {
                                lemma_contains(before_insert, keys_of(ne)[a]);
                                assert(before_insert[a].key.kv() == keys_of(ne)[a]);
                            }
                        }
                    }
                    lemma_find(ne, ne.len() - 1);
                    assert forall|j: KeyView| #[trigger] model(ne).contains_key(j) <==> mb.insert(kv, (ne[ne.len() - 1].value@, order)).contains_key(j) by {
                        lemma_contains(ne, j);
                        lemma_contains(before_insert, j);
                        if model(ne).contains_key(j) && j != kv {
                            let t = choose|t: int| 0 <= t < ne.len() && ne[t].key.kv() == j;
                            assert(before_insert[t].key.kv() == j);
                        }
                        if mb.contains_key(j) {
                            let t = choose|t: int| 0 <= t < before_insert.len() && before_insert[t].key.kv() == j;
                            assert(ne[t].key.kv() == j);
                        }
                    }
                    assert forall|j: KeyView| #[trigger] model(ne).contains_key(j) && j != kv implies model(ne)[j] == mb[j] by {
                        lemma_contains(ne, j);
                        let t = choose|t: int| 0 <= t < ne.len() && ne[t].key.kv() == j;
                        lemma_find(ne, t);
                        lemma_find(before_insert, t);
                    }
                    lemma_len(ne);
                    if !(m0.len() >= MAX_ENTRIES) {
                        assert(mb == m0);
                        assert(model(ne).dom() =~= m0.dom().insert(kv));
                    } else {
                        assert(mb == m0.remove(evicted));
                        assert(model(ne).dom() =~= m0.dom().remove(evicted).insert(kv));
                        assert forall|j: KeyView| #[trigger] model(ne).contains_key(j) && j != kv implies model(ne)[j] == m0[j] by {
                            assert(mb.contains_key(j));
                        }
                        assert(eviction(m0, model(ne), evicted, kv));
                    }
                }
            },
        }
        self.next_order = self.next_order.wrapping_add(1);
        proof {
            if !m0.contains_key(kv0) && m0.len() >= MAX_ENTRIES {
                assert(eviction(m0, self@, evicted, kv0));
                lemma_len(self.entries@);
                assert(self@.dom() == m0.dom().remove(evicted).insert(kv0));
                assert(m0.dom().remove(evicted).len() == m0.dom().len() - 1);
            }
        }
    }
}

} // verus!
