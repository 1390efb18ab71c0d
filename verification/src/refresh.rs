//! The daemon's directory-size bookkeeping: maps keyed by path, the cache of
//! measured directory sizes with the modification times they were measured
//! at, and the queue and in-flight set of background size refreshes.

use vstd::prelude::*;
use crate::git::{path_components, path_components_of, views_of_chars};
use crate::daemon::{cached_dir_size_is_fresh, size_fresh, tracked_dir};
use crate::fs::DirEntry;
use crate::parse::{parse_u64, parse_u64_text, trim_chars, trim_text};
use crate::ports::{words, words_of};
use crate::watch::should_skip_dir;
use crate::text::{owned, to_chars, views};
use crate::watch::is_under;

verus! {

/// A path's key: its components, so that paths that differ only in how they
/// are written (`/a/b` and `/a/b/`) are the same key, as with `PathBuf`.
pub open spec fn path_key(p: Seq<char>) -> Seq<Seq<char>> {
    path_components(p)
}

/// The pairs of a list, each path taken by its text.
pub open spec fn pairs_view<V>(v: Seq<(String, V)>) -> Seq<(Seq<char>, V)> {
    v.map_values(|e: (String, V)| (e.0@, e.1))
}

/// The map a list of (path, value) pairs stands for: later pairs win.
pub open spec fn map_of<V>(v: Seq<(Seq<char>, V)>) -> Map<Seq<Seq<char>>, V>
    decreases v.len(),
{
    if v.len() == 0 {
        Map::empty()
    } else {
        map_of(v.drop_last()).insert(path_key(v.last().0), v.last().1)
    }
}

/// No path occurs twice in the list.
pub open spec fn distinct_keys<V>(v: Seq<(Seq<char>, V)>) -> bool {
    forall|i: int, j: int| 0 <= i < v.len() && 0 <= j < v.len() && i != j ==> path_key(v[i].0) != path_key(v[j].0)
}

pub proof fn lemma_map_of_dom<V>(v: Seq<(Seq<char>, V)>, k: Seq<Seq<char>>)
    ensures
        map_of(v).contains_key(k) <==> exists|j: int| 0 <= j < v.len() && path_key(v[j].0) == k,
    decreases v.len(),
{
    if v.len() > 0 {
        lemma_map_of_dom(v.drop_last(), k);
        if map_of(v).contains_key(k) && path_key(v.last().0) != k {
            let j = choose|j: int| 0 <= j < v.len() - 1 && path_key(v.drop_last()[j].0) == k;
            assert(path_key(v[j].0) == k);
        }
        if exists|j: int| 0 <= j < v.len() && path_key(v[j].0) == k {
            let j = choose|j: int| 0 <= j < v.len() && path_key(v[j].0) == k;
            if j < v.len() - 1 {
                assert(path_key(v.drop_last()[j].0) == k);
            }
        }
    }
}

pub proof fn lemma_map_of_update<V>(v: Seq<(Seq<char>, V)>, i: int, e: (Seq<char>, V))
    requires
        distinct_keys(v),
        0 <= i < v.len(),
        path_key(v[i].0) == path_key(e.0),
    ensures
        map_of(v.update(i, e)) == map_of(v).insert(path_key(e.0), e.1),
        distinct_keys(v.update(i, e)),
    decreases v.len(),
{
    let w = v.update(i, e);
    assert(w.drop_last() == if i == v.len() - 1 { v.drop_last() } else { v.drop_last().update(i, e) });
    if i < v.len() - 1 {
        lemma_map_of_update(v.drop_last(), i, e);
        assert(path_key(v.last().0) != path_key(e.0));
        assert(map_of(w) =~= map_of(v).insert(path_key(e.0), e.1));
    } else {
        assert(map_of(w) =~= map_of(v).insert(path_key(e.0), e.1));
    }
}

pub proof fn lemma_map_of_last<V>(v: Seq<(Seq<char>, V)>, k: int, key: Seq<Seq<char>>)
    requires
        0 <= k < v.len(),
        path_key(v[k].0) == key,
        forall|j: int| k < j < v.len() ==> path_key(v[j].0) != key,
    ensures
        map_of(v).contains_key(key),
        map_of(v)[key] == v[k].1,
    decreases v.len(),
{
    if k < v.len() - 1 {
        lemma_map_of_last(v.drop_last(), k, key);
    }
}

/// The pairs of `v` whose paths do not lie at or under `root`, in order.
pub open spec fn keep_not_under<V>(v: Seq<(Seq<char>, V)>, root: Seq<char>) -> Seq<(Seq<char>, V)>
    decreases v.len(),
{
    if v.len() == 0 {
        Seq::empty()
    } else {
        let rest = keep_not_under(v.drop_last(), root);
        if is_under(v.last().0, root) {
            rest
        } else {
            rest.push(v.last())
        }
    }
}

/// The path with components `k` lies at or under `root`.
pub open spec fn key_under(k: Seq<Seq<char>>, root: Seq<char>) -> bool {
    let rc = path_components(root);
    rc.len() <= k.len() && k.take(rc.len() as int) == rc
}

/// `m` without the keys of paths at or under `root`.
pub open spec fn without_under<V>(m: Map<Seq<Seq<char>>, V>, root: Seq<char>) -> Map<Seq<Seq<char>>, V> {
    m.restrict(m.dom().filter(|k: Seq<Seq<char>>| !key_under(k, root)))
}

pub proof fn lemma_keep_not_under<V>(v: Seq<(Seq<char>, V)>, root: Seq<char>)
    ensures
        map_of(keep_not_under(v, root)) == without_under(map_of(v), root),
        forall|j: int| 0 <= j < keep_not_under(v, root).len() ==> exists|i: int| 0 <= i < v.len() && #[trigger] keep_not_under(v, root)[j] == v[i],
    decreases v.len(),
{
    if v.len() > 0 {
        let w = v.drop_last();
        lemma_keep_not_under(w, root);
        let rest = keep_not_under(w, root);
        let x = path_key(v.last().0);
        assert(key_under(x, root) == is_under(v.last().0, root));
        if is_under(v.last().0, root) {
            assert(keep_not_under(v, root) == rest);
            assert(map_of(keep_not_under(v, root)) =~= without_under(map_of(v), root));
        } else {
            let kp = rest.push(v.last());
            assert(keep_not_under(v, root) == kp);
            assert(kp.drop_last() == rest);
            assert(kp.last() == v.last());
            assert(map_of(kp) == map_of(rest).insert(x, v.last().1));
            let a = map_of(keep_not_under(v, root));
            let b = without_under(map_of(v), root);
            assert forall|k: Seq<Seq<char>>| #[trigger] a.contains_key(k) <==> b.contains_key(k) by {
                if k == x {
                } else {
                    assert(a.contains_key(k) == map_of(rest).contains_key(k));
                    assert(map_of(v).contains_key(k) == map_of(w).contains_key(k));
                }
            }
            assert forall|k: Seq<Seq<char>>| #[trigger] a.contains_key(k) implies a[k] == b[k] by {
                if k == x {
                } else {
                    assert(map_of(v)[k] == map_of(w)[k]);
                }
            }
            assert(a =~= b);
        }
        assert forall|j: int| 0 <= j < keep_not_under(v, root).len() implies exists|i: int| 0 <= i < v.len() && #[trigger] keep_not_under(v, root)[j] == v[i] by {
            if j < rest.len() {
                let i = choose|i: int| 0 <= i < w.len() && #[trigger] rest[j] == w[i];
                assert(keep_not_under(v, root)[j] == v[i]);
            } else {
                assert(keep_not_under(v, root)[j] == v[v.len() - 1]);
            }
        }
    }
}

pub proof fn lemma_keep_distinct<V>(v: Seq<(Seq<char>, V)>, root: Seq<char>)
    requires
        distinct_keys(v),
    ensures
        distinct_keys(keep_not_under(v, root)),
    decreases v.len(),
{
    if v.len() > 0 {
        let w = v.drop_last();
        assert(distinct_keys(w));
        lemma_keep_distinct(w, root);
        lemma_keep_not_under(w, root);
        let rest = keep_not_under(w, root);
        let k = keep_not_under(v, root);
        if !is_under(v.last().0, root) {
            assert forall|a: int, b: int| 0 <= a < k.len() && 0 <= b < k.len() && a != b implies path_key(k[a].0) != path_key(k[b].0) by {
                if a < rest.len() && b < rest.len() {
                } else if a == rest.len() {
                    let i = choose|i: int| 0 <= i < w.len() && #[trigger] rest[b] == w[i];
                    assert(v[i] == w[i]);
                } else {
                    let i = choose|i: int| 0 <= i < w.len() && #[trigger] rest[a] == w[i];
                    assert(v[i] == w[i]);
                }
            }
        }
    }
}

/// A map from paths to values: a list of pairs in which no path occurs twice.
pub struct PathMap<V> {
    pub entries: Vec<(String, V)>,
}

impl<V> View for PathMap<V> {
    type V = Map<Seq<Seq<char>>, V>;

    open spec fn view(&self) -> Map<Seq<Seq<char>>, V> {
        map_of(pairs_view(self.entries@))
    }
}

fn same_key(a: &str, b: &str) -> (r: bool)
    ensures
        r == (path_key(a@) == path_key(b@)),
{
    let ac = path_components_of(a);
    let bc = path_components_of(b);
    if ac.len() != bc.len() {
        assert(views_of_chars(ac@).len() != views_of_chars(bc@).len());
        return false;
    }
    let mut i: usize = 0;
    while i < ac.len()
        invariant
            i <= ac@.len(),
            ac@.len() == bc@.len(),
            views_of_chars(ac@) == path_key(a@),
            views_of_chars(bc@) == path_key(b@),
            forall|k: int| 0 <= k < i ==> ac@[k]@ == bc@[k]@,
        decreases ac@.len() - i,
    {
        if !crate::text::chars_eq(ac[i].as_slice(), bc[i].as_slice()) {
            assert(views_of_chars(ac@)[i as int] == ac@[i as int]@);
            assert(views_of_chars(bc@)[i as int] == bc@[i as int]@);
            assert(views_of_chars(ac@)[i as int] != views_of_chars(bc@)[i as int]);
            return false;
        }
        i = i + 1;
    }
    assert(views_of_chars(ac@) =~= views_of_chars(bc@));
    true
}

fn under_root(path: &str, root: &str) -> (r: bool)
    ensures
        r == is_under(path@, root@),
{
    let pc = path_components_of(path);
    let rc = path_components_of(root);
    if rc.len() > pc.len() {
        return false;
    }
    let mut i: usize = 0;
    while i < rc.len()
        invariant
            i <= rc@.len(),
            rc@.len() <= pc@.len(),
            views_of_chars(pc@) == path_components(path@),
            views_of_chars(rc@) == path_components(root@),
            forall|k: int| 0 <= k < i ==> pc@[k]@ == rc@[k]@,
        decreases rc@.len() - i,
    {
        if !crate::text::chars_eq(pc[i].as_slice(), rc[i].as_slice()) {
            assert(views_of_chars(pc@)[i as int] == pc@[i as int]@);
            assert(views_of_chars(rc@)[i as int] == rc@[i as int]@);
            assert(views_of_chars(pc@).take(rc@.len() as int)[i as int] != views_of_chars(rc@)[i as int]);
            return false;
        }
        i = i + 1;
    }
    assert(views_of_chars(pc@).take(rc@.len() as int) =~= views_of_chars(rc@));
    true
}

impl<V: Copy> PathMap<V> {
    /// No path occurs twice.
    pub open spec fn wf(&self) -> bool {
        distinct_keys(pairs_view(self.entries@))
    }

    /// An empty map.
    pub fn new() -> (r: PathMap<V>)
        ensures
            r.wf(),
            r@ == Map::<Seq<Seq<char>>, V>::empty(),
    {
        let r = PathMap { entries: Vec::new() };
        assert(pairs_view(r.entries@) =~= Seq::<(Seq<char>, V)>::empty());
        r
    }

    /// The value of `path`, if it has one.
    pub fn get(&self, path: &str) -> (r: Option<V>)
        ensures
            r == (if self@.contains_key(path_key(path@)) { Some(self@[path_key(path@)]) } else { None }),
    {
        let ghost pv = pairs_view(self.entries@);
        let mut i = self.entries.len();
        while i > 0
            invariant
                i <= self.entries@.len(),
                pv == pairs_view(self.entries@),
                forall|j: int| i <= j < pv.len() ==> path_key(pv[j].0) != path_key(path@),
            decreases i,
        {
            if same_key(self.entries[i - 1].0.as_str(), path) {
                proof {
                    lemma_map_of_last(pv, i - 1, path_key(path@));
                }
                return Some(self.entries[i - 1].1);
            }
            i = i - 1;
        }
        proof {
            lemma_map_of_dom(pv, path_key(path@));
        }
        None
    }

    /// Sets the value of `path`.
    pub fn insert(&mut self, path: String, value: V)
        requires
            old(self).wf(),
        ensures
            final(self).wf(),
            final(self)@ == old(self)@.insert(path_key(path@), value),
    {
        let ghost pv = pairs_view(self.entries@);
        let mut i: usize = 0;
        while i < self.entries.len()
            invariant
                i <= self.entries@.len(),
                self.entries@ == old(self).entries@,
                pv == pairs_view(self.entries@),
                distinct_keys(pv),
                forall|j: int| 0 <= j < i ==> path_key(pv[j].0) != path_key(path@),
            decreases self.entries@.len() - i,
        {
            if same_key(self.entries[i].0.as_str(), path.as_str()) {
                proof {
                    lemma_map_of_update(pv, i as int, (path@, value));
                }
                let ghost e = (path@, value);
                self.entries.set(i, (path, value));
                assert(pairs_view(self.entries@) =~= pv.update(i as int, e));
                return;
            }
            i = i + 1;
        }
        let ghost pe = path@;
        self.entries.push((path, value));
        let ghost nv = pairs_view(self.entries@);
        assert(nv =~= pv.push((pe, value)));
        assert(nv.drop_last() == pv);
        assert(distinct_keys(nv)) by {
            assert forall|a: int, b: int| 0 <= a < nv.len() && 0 <= b < nv.len() && a != b implies path_key(nv[a].0) != path_key(nv[b].0) by {
                if a < pv.len() && b < pv.len() {
                } else if a == pv.len() {
                    assert(path_key(pv[b].0) != path_key(pe));
                } else {
                    assert(path_key(pv[a].0) != path_key(pe));
                }
            }
        }
    }

    /// Drops the values of every path at or under `root`.
    pub fn remove_under(&mut self, root: &str)
        requires
            old(self).wf(),
        ensures
            final(self).wf(),
            final(self)@ == without_under(old(self)@, root@),
    {
        let ghost orig = pairs_view(self.entries@);
        let mut kept: Vec<(String, V)> = Vec::new();
        let mut i: usize = 0;
        while i < self.entries.len()
            invariant
                i <= self.entries@.len(),
                orig == pairs_view(self.entries@),
                pairs_view(kept@) == keep_not_under(orig.take(i as int), root@),
            decreases self.entries@.len() - i,
        {
            assert(orig.take(i + 1).drop_last() == orig.take(i as int));
            assert(orig.take(i + 1).last() == orig[i as int]);
            let under = under_root(self.entries[i].0.as_str(), root);
            if !under {
                let p = owned(self.entries[i].0.as_str());
                let v = self.entries[i].1;
                let ghost before = pairs_view(kept@);
                kept.push((p, v));
                assert(pairs_view(kept@) =~= before.push(orig[i as int]));
            }
            i = i + 1;
        }
        assert(orig.take(orig.len() as int) == orig);
        proof {
            lemma_keep_not_under(orig, root@);
            lemma_keep_distinct(orig, root@);
        }
        self.entries = kept;
    }

    /// The map that `pairs` stand for, later pairs winning.
    pub fn from_pairs(pairs: Vec<(String, V)>) -> (r: PathMap<V>)
        ensures
            r.wf(),
            r@ == map_of(pairs_view(pairs@)),
    {
        let ghost pv = pairs_view(pairs@);
        let mut m = PathMap::new();
        let mut i: usize = 0;
        while i < pairs.len()
            invariant
                i <= pairs@.len(),
                pv == pairs_view(pairs@),
                m.wf(),
                m@ == map_of(pv.take(i as int)),
            decreases pairs@.len() - i,
        {
            assert(pv.take(i + 1).drop_last() == pv.take(i as int));
            assert(pv.take(i + 1).last() == pv[i as int]);
            let p = owned(pairs[i].0.as_str());
            m.insert(p, pairs[i].1);
            i = i + 1;
        }
        assert(pv.take(pv.len() as int) == pv);
        m
    }

    /// The pairs of the map, for saving it.
    pub fn pairs(&self) -> (r: Vec<(String, V)>)
        ensures
            pairs_view(r@) == pairs_view(self.entries@),
    {
        let mut r: Vec<(String, V)> = Vec::new();
        let mut i: usize = 0;
        while i < self.entries.len()
            invariant
                i <= self.entries@.len(),
                pairs_view(r@) == pairs_view(self.entries@).take(i as int),
            decreases self.entries@.len() - i,
        {
            let ghost before = pairs_view(r@);
            let ghost all = pairs_view(self.entries@);
            assert(all.take(i + 1) == all.take(i as int).push(all[i as int]));
            r.push((owned(self.entries[i].0.as_str()), self.entries[i].1));
            assert(pairs_view(r@) =~= before.push(all[i as int]));
            i = i + 1;
        }
        assert(pairs_view(self.entries@).take(self.entries@.len() as int) =~= pairs_view(self.entries@));
        r
    }
}

/// The modification time recorded for the key `k`: none where nothing was
/// recorded, or where the measurement did not finish.
pub open spec fn recorded_mtime(mtimes: Map<Seq<Seq<char>>, Option<u128>>, k: Seq<Seq<char>>) -> Option<u128> {
    if mtimes.contains_key(k) {
        mtimes[k]
    } else {
        None
    }
}

/// The size a `DirSize` request is answered from the cache: the cached size
/// of the directory when the modification time recorded with it equals the
/// directory's current one; `None` when it must be measured.
pub open spec fn request_answer(
    sizes: Map<Seq<Seq<char>>, u64>,
    mtimes: Map<Seq<Seq<char>>, Option<u128>>,
    k: Seq<Seq<char>>,
    current_mtime: Option<u128>,
) -> Option<u64> {
    if sizes.contains_key(k) && recorded_mtime(mtimes, k) == current_mtime {
        Some(sizes[k])
    } else {
        None
    }
}

/// Measured directory sizes, each with the modification time its directory
/// had when it was measured (`None` where the measurement did not finish).
pub struct SizeCache {
    pub sizes: PathMap<u64>,
    pub mtimes: PathMap<Option<u128>>,
}

impl SizeCache {
    /// Neither map holds a path twice.
    pub open spec fn wf(&self) -> bool {
        self.sizes.wf() && self.mtimes.wf()
    }

    /// An empty cache.
    pub fn new() -> (r: SizeCache)
        ensures
            r.wf(),
            r.sizes@ == Map::<Seq<Seq<char>>, u64>::empty(),
            r.mtimes@ == Map::<Seq<Seq<char>>, Option<u128>>::empty(),
    {
        SizeCache { sizes: PathMap::new(), mtimes: PathMap::new() }
    }

    /// The cache as it was saved: its sizes and its modification times.
    pub fn from_saved(sizes: Vec<(String, u64)>, mtimes: Vec<(String, Option<u128>)>) -> (r: SizeCache)
        ensures
            r.wf(),
            r.sizes@ == map_of(pairs_view(sizes@)),
            r.mtimes@ == map_of(pairs_view(mtimes@)),
    {
        SizeCache { sizes: PathMap::from_pairs(sizes), mtimes: PathMap::from_pairs(mtimes) }
    }

    /// Answers a `DirSize` request from the cache, if it can be.
    pub fn request_size(&self, path: &str, current_mtime: Option<u128>) -> (r: Option<u64>)
        ensures
            r == request_answer(self.sizes@, self.mtimes@, path_key(path@), current_mtime),
    {
        let recorded = match self.mtimes.get(path) {
            Some(m) => m,
            None => None,
        };
        match self.sizes.get(path) {
            Some(size) => if recorded == current_mtime {
                Some(size)
            } else {
                None
            },
            None => None,
        }
    }

    /// The good cached size of a displayed directory: one that is cached and
    /// fresh (see [`size_fresh`]) for the directory's current modification
    /// time and metadata.
    pub fn fresh_size(&self, path: &str, current_mtime: Option<u128>, meta: Option<(bool, u64)>) -> (r: Option<u64>)
        ensures
            r == (if self.sizes@.contains_key(path_key(path@)) && size_fresh(
                self.sizes@[path_key(path@)],
                recorded_mtime(self.mtimes@, path_key(path@)),
                current_mtime,
                meta,
            ) {
                Some(self.sizes@[path_key(path@)])
            } else {
                None
            }),
    {
        let recorded = match self.mtimes.get(path) {
            Some(m) => m,
            None => None,
        };
        match self.sizes.get(path) {
            Some(size) => if cached_dir_size_is_fresh(size, recorded, current_mtime, meta) {
                Some(size)
            } else {
                None
            },
            None => None,
        }
    }

    /// Records what a `DirSize` request measured: the size, and the
    /// directory's modification time where the measurement finished.
    pub fn record_request(&mut self, path: &str, size: u64, measured: bool, current_mtime: Option<u128>)
        requires
            old(self).wf(),
        ensures
            final(self).wf(),
            final(self).sizes@ == old(self).sizes@.insert(path_key(path@), size),
            final(self).mtimes@ == old(self).mtimes@.insert(path_key(path@), if measured { current_mtime } else { None }),
    {
        self.sizes.insert(owned(path), size);
        let m = if measured { current_mtime } else { None };
        self.mtimes.insert(owned(path), m);
    }

    /// Records what a background refresh measured: the size, and the
    /// modification time read before measuring where the measurement
    /// finished and a time was read, or no time where it did not finish.
    pub fn record_refresh(&mut self, path: &str, size: u64, measured: bool, mtime: Option<u128>)
        requires
            old(self).wf(),
        ensures
            final(self).wf(),
            final(self).sizes@ == old(self).sizes@.insert(path_key(path@), size),
            final(self).mtimes@ == (if !measured {
                old(self).mtimes@.insert(path_key(path@), None)
            } else if mtime is Some {
                old(self).mtimes@.insert(path_key(path@), mtime)
            } else {
                old(self).mtimes@
            }),
    {
        self.sizes.insert(owned(path), size);
        if measured {
            if mtime.is_some() {
                self.mtimes.insert(owned(path), mtime);
            }
        } else {
            self.mtimes.insert(owned(path), None);
        }
    }

    /// Forgets every size at or under `root`.
    pub fn prune_root(&mut self, root: &str)
        requires
            old(self).wf(),
        ensures
            final(self).wf(),
            final(self).sizes@ == without_under(old(self).sizes@, root@),
            final(self).mtimes@ == without_under(old(self).mtimes@, root@),
    {
        self.sizes.remove_under(root);
        self.mtimes.remove_under(root);
    }
}

/// A finished measurement is served: right after a `DirSize` request records
/// a size it measured, a request for the same directory at the same
/// modification time is answered with that size.
pub proof fn measured_size_is_served(
    sizes: Map<Seq<Seq<char>>, u64>,
    mtimes: Map<Seq<Seq<char>>, Option<u128>>,
    k: Seq<Seq<char>>,
    size: u64,
    mtime: Option<u128>,
)
    ensures
        request_answer(sizes.insert(k, size), mtimes.insert(k, mtime), k, mtime) == Some(size),
{
}

/// An unfinished measurement is not served once the directory has a
/// modification time: it is recorded with none, so the next request measures again.
pub proof fn unfinished_size_is_retried(
    sizes: Map<Seq<Seq<char>>, u64>,
    mtimes: Map<Seq<Seq<char>>, Option<u128>>,
    k: Seq<Seq<char>>,
    size: u64,
    current: u128,
)
    ensures
        request_answer(sizes.insert(k, size), mtimes.insert(k, None), k, Some(current)) is None,
{
}

/// Pruning a root forgets it and everything under it, and nothing else.
pub proof fn pruning_forgets_exactly_the_root<V>(m: Map<Seq<Seq<char>>, V>, root: Seq<char>, k: Seq<Seq<char>>)
    ensures
        key_under(k, root) ==> !without_under(m, root).contains_key(k),
        !key_under(k, root) ==> (without_under(m, root).contains_key(k) == m.contains_key(k)),
        !key_under(k, root) && m.contains_key(k) ==> without_under(m, root)[k] == m[k],
{
}

/// How many active folders one round of the background size refresh takes.
pub const ROOTS_PER_TICK: usize = 5;

/// Some path of `v` is the same path as `p`.
pub open spec fn holds_path(v: Seq<Seq<char>>, p: Seq<char>) -> bool {
    exists|i: int| 0 <= i < v.len() && path_key(#[trigger] v[i]) == path_key(p)
}

/// No two paths of `v` are the same path.
pub open spec fn distinct_paths(v: Seq<Seq<char>>) -> bool {
    forall|i: int, j: int| 0 <= i < v.len() && 0 <= j < v.len() && i != j ==> path_key(v[i]) != path_key(v[j])
}

/// One pass over the pending folders, in order: a folder joins the round
/// while the round holds fewer than five folders and not the same one;
/// otherwise it stays pending, unless it is pending already.
pub open spec fn refresh_split(pending: Seq<Seq<char>>) -> (Seq<Seq<char>>, Seq<Seq<char>>)
    decreases pending.len(),
{
    if pending.len() == 0 {
        (Seq::empty(), Seq::empty())
    } else {
        let prev = refresh_split(pending.drop_last());
        let p = pending.last();
        if prev.0.len() < ROOTS_PER_TICK && !holds_path(prev.0, p) {
            (prev.0.push(p), prev.1)
        } else if !holds_path(prev.1, p) {
            (prev.0, prev.1.push(p))
        } else {
            prev
        }
    }
}

/// A round of the background size refresh and what stays pending: the
/// round taken from the pending folders, or, when none is pending, the
/// first five active folders, most recent first.
pub open spec fn refresh_round(pending: Seq<Seq<char>>, active_order: Seq<Seq<char>>) -> (Seq<Seq<char>>, Seq<Seq<char>>) {
    let split = refresh_split(pending);
    if split.0.len() == 0 {
        (active_order.take(if active_order.len() < ROOTS_PER_TICK { active_order.len() as int } else { ROOTS_PER_TICK as int }), split.1)
    } else {
        split
    }
}

fn holds_path_exec(v: &[String], p: &str) -> (r: bool)
    ensures
        r == holds_path(views(v@), p@),
{
    let mut i: usize = 0;
    while i < v.len()
        invariant
            i <= v@.len(),
            forall|k: int| 0 <= k < i ==> path_key(#[trigger] views(v@)[k]) != path_key(p@),
        decreases v@.len() - i,
    {
        if same_key(v[i].as_str(), p) {
            assert(path_key(views(v@)[i as int]) == path_key(p@));
            return true;
        }
        i = i + 1;
    }
    false
}

fn push_text(v: &mut Vec<String>, s: &str)
    ensures
        views(final(v)@) == views(old(v)@).push(s@),
{
    let ghost before = v@;
    v.push(owned(s));
    assert(views(v@) =~= views(before).push(s@));
}

/// Takes the next round of the background size refresh from the pending
/// folders (or, when none is pending, from the active folders).
pub fn take_refresh_round(pending: &[String], active_order: &[String]) -> (r: (Vec<String>, Vec<String>))
    ensures
        (views(r.0@), views(r.1@)) == refresh_round(views(pending@), views(active_order@)),
{
    let ghost pv = views(pending@);
    let mut round: Vec<String> = Vec::new();
    let mut rest: Vec<String> = Vec::new();
    let mut i: usize = 0;
    while i < pending.len()
        invariant
            i <= pending@.len(),
            pv == views(pending@),
            (views(round@), views(rest@)) == refresh_split(pv.take(i as int)),
        decreases pending@.len() - i,
    {
        assert(pv.take(i + 1).drop_last() == pv.take(i as int));
        assert(pv.take(i + 1).last() == pending@[i as int]@);
        let p = pending[i].as_str();
        if round.len() < ROOTS_PER_TICK && !holds_path_exec(round.as_slice(), p) {
            push_text(&mut round, p);
        } else if !holds_path_exec(rest.as_slice(), p) {
            push_text(&mut rest, p);
        }
        i = i + 1;
    }
    assert(pv.take(pv.len() as int) == pv);
    if round.len() == 0 {
        let n: usize = if active_order.len() < ROOTS_PER_TICK { active_order.len() } else { ROOTS_PER_TICK };
        let mut j: usize = 0;
        while j < n
            invariant
                j <= n,
                n <= active_order@.len(),
                views(round@) == views(active_order@).take(j as int),
            decreases n - j,
        {
            assert(views(active_order@).take(j + 1) == views(active_order@).take(j as int).push(active_order@[j as int]@));
            push_text(&mut round, active_order[j].as_str());
            j = j + 1;
        }
    }
    (round, rest)
}

/// A round holds at most five folders, never the same folder twice, and
/// every pending folder is either in the round or still pending.
pub proof fn refresh_round_keeps_every_folder(pending: Seq<Seq<char>>)
    ensures
        refresh_split(pending).0.len() <= ROOTS_PER_TICK,
        distinct_paths(refresh_split(pending).0),
        forall|i: int| 0 <= i < pending.len() ==> holds_path(refresh_split(pending).0, #[trigger] pending[i])
            || holds_path(refresh_split(pending).1, pending[i]),
    decreases pending.len(),
{
    if pending.len() > 0 {
        let w = pending.drop_last();
        refresh_round_keeps_every_folder(w);
        let prev = refresh_split(w);
        let p = pending.last();
        let cur = refresh_split(pending);
        assert forall|a: int, b: int| 0 <= a < cur.0.len() && 0 <= b < cur.0.len() && a != b implies path_key(cur.0[a]) != path_key(cur.0[b]) by {
            if a < prev.0.len() && b < prev.0.len() {
            } else if a == prev.0.len() {
                assert(path_key(prev.0[b]) != path_key(p));
            } else {
                assert(path_key(prev.0[a]) != path_key(p));
            }
        }
        assert forall|i: int| 0 <= i < pending.len() implies holds_path(cur.0, #[trigger] pending[i]) || holds_path(cur.1, pending[i]) by {
            if i < w.len() {
                assert(pending[i] == w[i]);
                if holds_path(prev.0, w[i]) {
                    let k = choose|k: int| 0 <= k < prev.0.len() && path_key(#[trigger] prev.0[k]) == path_key(w[i]);
                    assert(cur.0[k] == prev.0[k]);
                } else {
                    let k = choose|k: int| 0 <= k < prev.1.len() && path_key(#[trigger] prev.1[k]) == path_key(w[i]);
                    assert(cur.1[k] == prev.1[k]);
                }
            } else {
                if prev.0.len() < ROOTS_PER_TICK && !holds_path(prev.0, p) {
                    assert(cur.0[prev.0.len() as int] == p);
                } else if !holds_path(prev.1, p) {
                    assert(cur.1[prev.1.len() as int] == p);
                }
            }
        }
    }
}

/// `v` without the paths that are the same path as `p`.
pub open spec fn without_path(v: Seq<Seq<char>>, p: Seq<char>) -> Seq<Seq<char>>
    decreases v.len(),
{
    if v.len() == 0 {
        Seq::empty()
    } else if path_key(v.last()) == path_key(p) {
        without_path(v.drop_last(), p)
    } else {
        without_path(v.drop_last(), p).push(v.last())
    }
}

/// Queues a folder for the background size refresh, unless it is queued already.
pub fn enqueue_refresh(pending: &mut Vec<String>, path: &str)
    ensures
        views(final(pending)@) == (if holds_path(views(old(pending)@), path@) {
            views(old(pending)@)
        } else {
            views(old(pending)@).push(path@)
        }),
{
    if !holds_path_exec(pending.as_slice(), path) {
        push_text(pending, path);
    }
}

/// Marks a folder's size refresh as running; `false` (and nothing changes)
/// when one is running already.
pub fn mark_in_flight(in_flight: &mut Vec<String>, path: &str) -> (started: bool)
    ensures
        started == !holds_path(views(old(in_flight)@), path@),
        views(final(in_flight)@) == (if started { views(old(in_flight)@).push(path@) } else { views(old(in_flight)@) }),
{
    if holds_path_exec(in_flight.as_slice(), path) {
        false
    } else {
        push_text(in_flight, path);
        true
    }
}

/// Marks a folder's size refresh as finished.
pub fn clear_in_flight(in_flight: &mut Vec<String>, path: &str)
    ensures
        views(final(in_flight)@) == without_path(views(old(in_flight)@), path@),
{
    let ghost orig = views(in_flight@);
    let mut kept: Vec<String> = Vec::new();
    let mut i: usize = 0;
    while i < in_flight.len()
        invariant
            i <= in_flight@.len(),
            orig == views(in_flight@),
            views(kept@) == without_path(orig.take(i as int), path@),
        decreases in_flight@.len() - i,
    {
        assert(orig.take(i + 1).drop_last() == orig.take(i as int));
        assert(orig.take(i + 1).last() == in_flight@[i as int]@);
        if !same_key(in_flight[i].as_str(), path) {
            push_text(&mut kept, in_flight[i].as_str());
        }
        i = i + 1;
    }
    assert(orig.take(orig.len() as int) == orig);
    *in_flight = kept;
}

pub proof fn lemma_without_absent(v: Seq<Seq<char>>, p: Seq<char>)
    requires
        !holds_path(v, p),
    ensures
        without_path(v, p) == v,
    decreases v.len(),
{
    if v.len() > 0 {
        let w = v.drop_last();
        if holds_path(w, p) {
            let k = choose|k: int| 0 <= k < w.len() && path_key(#[trigger] w[k]) == path_key(p);
            assert(v[k] == w[k]);
        }
        lemma_without_absent(w, p);
        assert(path_key(v[v.len() - 1]) != path_key(p));
        assert(w.push(v.last()) == v);
    }
}

/// A refresh that starts and finishes leaves the set of running refreshes
/// as it found it.
pub proof fn finished_refresh_restores_in_flight(in_flight: Seq<Seq<char>>, p: Seq<char>)
    requires
        !holds_path(in_flight, p),
    ensures
        without_path(in_flight.push(p), p) == in_flight,
{
    let v = in_flight.push(p);
    assert(v.drop_last() == in_flight);
    lemma_without_absent(in_flight, p);
}

/// A refreshed banner replaces the cached one unless that one was computed
/// later than the refresh started (times in nanoseconds).
pub fn should_replace(cached_computed_at: Option<u128>, refresh_started_at: u128) -> (r: bool)
    ensures
        r == (match cached_computed_at {
            Some(t) => t <= refresh_started_at,
            None => true,
        }),
{
    match cached_computed_at {
        Some(t) => t <= refresh_started_at,
        None => true,
    }
}

/// Whether the banner's size follow-up queues the folder for the background
/// refresh, and whether it schedules a refresh now: a served banner does
/// both when some displayed directory lacks a good size; a computed banner
/// always schedules one.
pub fn size_followup(served_from_cache: bool, needs_refresh: bool) -> (r: (bool, bool))
    ensures
        r == (if served_from_cache { (needs_refresh, needs_refresh) } else { (false, true) }),
{
    if served_from_cache {
        (needs_refresh, needs_refresh)
    } else {
        (false, true)
    }
}

/// The positions of the displayed entries whose sizes must be measured,
/// among the first `n`: the tracked directories with no good cached size.
pub open spec fn jobs_upto(items: Seq<DirEntry>, fresh: Seq<Option<u64>>, n: int) -> Seq<usize>
    decreases n,
{
    if n <= 0 {
        Seq::empty()
    } else {
        let r = jobs_upto(items, fresh, n - 1);
        if tracked_dir(items[n - 1]) && fresh[n - 1] is None {
            r.push((n - 1) as usize)
        } else {
            r
        }
    }
}

/// The positions of the displayed entries whose sizes must be measured.
pub fn size_refresh_jobs(items: &[DirEntry], fresh: &[Option<u64>]) -> (r: Vec<usize>)
    requires
        fresh@.len() == items@.len(),
    ensures
        r@ == jobs_upto(items@, fresh@, items@.len() as int),
{
    let mut r: Vec<usize> = Vec::new();
    let mut i: usize = 0;
    while i < items.len()
        invariant
            i <= items@.len(),
            fresh@.len() == items@.len(),
            r@ == jobs_upto(items@, fresh@, i as int),
        decreases items@.len() - i,
    {
        if items[i].is_dir && !should_skip_dir(items[i].path.as_str()) && fresh[i].is_none() {
            r.push(i);
        }
        i = i + 1;
    }
    r
}

/// The size measured for entry `i` by the jobs `jobs` with results `sizes`:
/// that of the last job for it, if there is one.
pub open spec fn measured_for(jobs: Seq<usize>, sizes: Seq<u64>, i: int) -> Option<u64>
    decreases jobs.len(),
{
    if jobs.len() == 0 {
        None
    } else if jobs.last() == i {
        Some(sizes[jobs.len() - 1])
    } else {
        measured_for(jobs.drop_last(), sizes.take(jobs.len() - 1), i)
    }
}

/// Puts the measured sizes into the displayed entries: entry `jobs[k]` gets
/// `sizes[k]`; entries without a job keep their sizes.
pub fn apply_measured_sizes(items: &mut Vec<DirEntry>, jobs: &[usize], sizes: &[u64])
    requires
        jobs@.len() == sizes@.len(),
        forall|k: int| 0 <= k < jobs@.len() ==> jobs@[k] < old(items)@.len(),
    ensures
        final(items)@.len() == old(items)@.len(),
        forall|i: int| 0 <= i < old(items)@.len() ==> #[trigger] final(items)@[i] == (match measured_for(jobs@, sizes@, i) {
            Some(sz) => DirEntry { size: sz, ..old(items)@[i] },
            None => old(items)@[i],
        }),
{
    let ghost orig = items@;
    let mut k: usize = 0;
    while k < jobs.len()
        invariant
            k <= jobs@.len(),
            jobs@.len() == sizes@.len(),
            forall|j: int| 0 <= j < jobs@.len() ==> jobs@[j] < orig.len(),
            items@.len() == orig.len(),
            forall|i: int| 0 <= i < orig.len() ==> #[trigger] items@[i] == (match measured_for(jobs@.take(k as int), sizes@.take(k as int), i) {
                Some(sz) => DirEntry { size: sz, ..orig[i] },
                None => orig[i],
            }),
        decreases jobs@.len() - k,
    {
        let idx = jobs[k];
        let size = sizes[k];
        let mut tmp = DirEntry {
            name: String::new(),
            path: String::new(),
            is_dir: false,
            is_file: false,
            is_symlink: false,
            is_exec: false,
            size: 0,
            modified: None,
            perms: String::new(),
            owner: String::new(),
            group: String::new(),
            symlink_target: None,
            symlink_valid: true,
            content_probe: None,
        };
        let ghost before = items@;
        items.set_and_swap(idx, &mut tmp);
        tmp.size = size;
        items.set_and_swap(idx, &mut tmp);
        proof {
            let jt = jobs@.take(k + 1);
            let st = sizes@.take(k + 1);
            assert(jt.drop_last() == jobs@.take(k as int));
            assert(st.take(k as int) == sizes@.take(k as int));
            assert(jt.last() == idx);
            assert(st[k as int] == size);
            assert forall|i: int| 0 <= i < orig.len() implies #[trigger] items@[i] == (match measured_for(jt, st, i) {
                Some(sz) => DirEntry { size: sz, ..orig[i] },
                None => orig[i],
            }) by {
                if i == idx {
                } else {
                    assert(items@[i] == before[i]);
                }
            }
        }
        k = k + 1;
    }
    assert(jobs@.take(jobs@.len() as int) == jobs@);
    assert(sizes@.take(sizes@.len() as int) == sizes@);
}

/// The size `du -s -b` printed: the first word of its trimmed output, as a
/// number; `None` for empty output or a word that is not a number.
pub open spec fn du_size_text(out: Seq<char>) -> Option<nat> {
    let t = trim_text(out);
    if t.len() == 0 {
        None
    } else {
        let w = words(t);
        parse_u64_text(if w.len() > 0 { w[0] } else { "0"@ })
    }
}

/// Reads the size from the output of `du -s -b`.
pub fn parse_du_size(out: &str) -> (r: Option<u64>)
    ensures
        match r {
            Some(v) => du_size_text(out@) == Some(v as nat),
            None => du_size_text(out@) is None,
        },
{
    let cs = to_chars(out);
    let t = trim_chars(cs.as_slice());
    if t.len() == 0 {
        return None;
    }
    let w = words_of(t.as_slice());
    if w.len() > 0 {
        parse_u64(w[0].as_slice())
    } else {
        let z = to_chars("0");
        parse_u64(z.as_slice())
    }
}

/// A time in nanoseconds since the Unix epoch as seconds and nanoseconds;
/// `None` where the seconds do not fit in 64 bits.
pub fn split_nanos(nanos: u128) -> (r: Option<(u64, u32)>)
    ensures
        r == (if nanos / 1_000_000_000 > u64::MAX as u128 {
            None
        } else {
            Some(((nanos / 1_000_000_000) as u64, (nanos % 1_000_000_000) as u32))
        }),
{
    let secs = nanos / 1_000_000_000;
    let sub = nanos % 1_000_000_000;
    if secs > u64::MAX as u128 {
        None
    } else {
        Some((secs as u64, sub as u32))
    }
}

} // verus!
