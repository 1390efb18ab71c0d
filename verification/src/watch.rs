//! The daemon's bookkeeping of watched directories: which directories are
//! never watched, which active root owns a path, the most-recently-used
//! order of roots, and the length-prefixed message framing of its socket.

use vstd::prelude::*;
use crate::git::{path_components, path_components_of, views_of_chars};
use crate::text::{owned, str_eq, views};

verus! {

/// Directories whose changes never affect a banner: build output, package
/// caches, VCS internals and tool state.
pub open spec fn skip_dirs() -> Seq<Seq<char>> {
    seq![
        "node_modules"@, "target"@, ".git"@, "dist"@, "build"@, ".pi"@, ".opencode"@, ".pi-glla"@,
        ".dracon"@, ".svelte-kit"@, ".cache"@
    ]
}

/// `Path::file_name`: the last component when it is a name (not the root, `.` or `..`).
pub open spec fn file_name_of(path: Seq<char>) -> Option<Seq<char>> {
    let c = path_components(path);
    if c.len() == 0 {
        None
    } else if c.last() == "/"@ || c.last() == "."@ || c.last() == ".."@ {
        None
    } else {
        Some(c.last())
    }
}

/// The directory is one the watcher skips (judged by its name).
pub fn should_skip_dir(path: &str) -> (r: bool)
    ensures
        r == (match file_name_of(path@) {
            Some(n) => skip_dirs().contains(n),
            None => false,
        }),
{
    let comps = path_components_of(path);
    if comps.len() == 0 {
        return false;
    }
    let last = crate::text::string_from_chars(comps[comps.len() - 1].as_slice());
    assert(last@ == path_components(path@).last());
    if str_eq(last.as_str(), "/") || str_eq(last.as_str(), ".") || str_eq(last.as_str(), "..") {
        return false;
    }
    let names = [
        "node_modules", "target", ".git", "dist", "build", ".pi", ".opencode", ".pi-glla", ".dracon",
        ".svelte-kit", ".cache",
    ];
    let ghost sd = skip_dirs();
    assert forall|i: int| 0 <= i < sd.len() implies #[trigger] names@[i]@ == sd[i] by {}
    assert(file_name_of(path@) == Some(last@));
    let mut i: usize = 0;
    while i < names.len()
        invariant
            i <= names@.len(),
            names@.len() == sd.len(),
            sd == skip_dirs(),
            file_name_of(path@) == Some(last@),
            forall|k: int| 0 <= k < sd.len() ==> #[trigger] names@[k]@ == sd[k],
            forall|k: int| 0 <= k < i ==> sd[k] != last@,
        decreases names@.len() - i,
    {
        if str_eq(last.as_str(), names[i]) {
            assert(sd[i as int] == last@);
            return true;
        }
        i = i + 1;
    }
    assert(!sd.contains(last@)) by {
        if sd.contains(last@) {
            let k = choose|k: int| 0 <= k < sd.len() && sd[k] == last@;
        }
    }
    false
}

/// `root` is `path` or one of its ancestors, component by component
/// (`path == root || path.starts_with(root)`).
pub open spec fn is_under(path: Seq<char>, root: Seq<char>) -> bool {
    let pc = path_components(path);
    let rc = path_components(root);
    rc.len() <= pc.len() && pc.take(rc.len() as int) == rc
}

fn comps_prefix(pc: &Vec<Vec<char>>, rc: &Vec<Vec<char>>) -> (r: bool)
    ensures
        r == (rc@.len() <= pc@.len() && views_of_chars(pc@).take(rc@.len() as int) == views_of_chars(rc@)),
{
    if rc.len() > pc.len() {
        return false;
    }
    let mut i: usize = 0;
    while i < rc.len()
        invariant
            i <= rc@.len(),
            rc@.len() <= pc@.len(),
            forall|k: int| 0 <= k < i ==> pc@[k]@ == rc@[k]@,
        decreases rc@.len() - i,
    {
        if !crate::text::chars_eq(pc[i].as_slice(), rc[i].as_slice()) {
            assert(views_of_chars(pc@).take(rc@.len() as int)[i as int] != views_of_chars(rc@)[i as int]);
            return false;
        }
        i = i + 1;
    }
    assert(views_of_chars(pc@).take(rc@.len() as int) =~= views_of_chars(rc@));
    true
}

/// Whether `path` lies under one of `roots`.
pub fn is_path_under_any_root(path: &str, roots: &[String]) -> (r: bool)
    ensures
        r == exists|i: int| 0 <= i < roots@.len() && is_under(path@, #[trigger] roots@[i]@),
{
    let pc = path_components_of(path);
    let mut i: usize = 0;
    while i < roots.len()
        invariant
            i <= roots@.len(),
            views_of_chars(pc@) == path_components(path@),
            forall|k: int| 0 <= k < i ==> !is_under(path@, #[trigger] roots@[k]@),
        decreases roots@.len() - i,
    {
        let rc = path_components_of(roots[i].as_str());
        if comps_prefix(&pc, &rc) {
            return true;
        }
        i = i + 1;
    }
    false
}

/// The active root that owns a watched path: the deepest root it lies under,
/// or the path itself when it lies under none.
pub fn find_owner_for_watch(path: &str, active_roots: &[String]) -> (r: String)
    ensures
        (forall|i: int| 0 <= i < active_roots@.len() ==> !is_under(path@, #[trigger] active_roots@[i]@)) ==> r@ == path@,
        (exists|i: int| 0 <= i < active_roots@.len() && is_under(path@, #[trigger] active_roots@[i]@)) ==> {
            &&& exists|i: int| 0 <= i < active_roots@.len() && is_under(path@, #[trigger] active_roots@[i]@) && r@ == active_roots@[i]@
            &&& forall|j: int| 0 <= j < active_roots@.len() && is_under(path@, #[trigger] active_roots@[j]@) ==> path_components(active_roots@[j]@).len() <= path_components(r@).len()
        },
{
    let pc = path_components_of(path);
    let mut best: Option<usize> = None;
    let mut best_depth: usize = 0;
    let mut i: usize = 0;
    while i < active_roots.len()
        invariant
            i <= active_roots@.len(),
            views_of_chars(pc@) == path_components(path@),
            best is None ==> forall|k: int| 0 <= k < i ==> !is_under(path@, #[trigger] active_roots@[k]@),
            best matches Some(b) ==> b < i && is_under(path@, active_roots@[b as int]@) && best_depth == path_components(active_roots@[b as int]@).len(),
            best matches Some(b) ==> forall|k: int| 0 <= k < i && is_under(path@, #[trigger] active_roots@[k]@) ==> path_components(active_roots@[k]@).len() <= best_depth,
        decreases active_roots@.len() - i,
    {
        let rc = path_components_of(active_roots[i].as_str());
        if comps_prefix(&pc, &rc) {
            let better = match best {
                None => true,
                Some(_) => rc.len() >= best_depth,
            };
            if better {
                best = Some(i);
                best_depth = rc.len();
            }
        }
        i = i + 1;
    }
    match best {
        None => owned(path),
        Some(b) => owned(active_roots[b].as_str()),
    }
}

fn same_components(pc: &Vec<Vec<char>>, rc: &Vec<Vec<char>>) -> (r: bool)
    ensures
        r == (views_of_chars(pc@) == views_of_chars(rc@)),
{
    if rc.len() != pc.len() {
        assert(views_of_chars(pc@).len() != views_of_chars(rc@).len());
        return false;
    }
    let r = comps_prefix(pc, rc);
    assert(views_of_chars(pc@).take(rc@.len() as int) == views_of_chars(pc@));
    r
}

/// Two paths are the same path (same components).
pub open spec fn same_path(a: Seq<char>, b: Seq<char>) -> bool {
    path_components(a) == path_components(b)
}

/// Marks `path` as the most recently active root: it joins the set of roots
/// (if no root is the same path) and moves to the front of the order, any
/// earlier entry for the same path (the first one) being removed.
pub fn touch_active_root(active_roots: &mut Vec<String>, active_order: &mut Vec<String>, path: String)
    ensures
        (exists|i: int| 0 <= i < old(active_roots)@.len() && same_path(#[trigger] old(active_roots)@[i]@, path@)) ==> final(active_roots)@ == old(active_roots)@,
        !(exists|i: int| 0 <= i < old(active_roots)@.len() && same_path(#[trigger] old(active_roots)@[i]@, path@)) ==> views(final(active_roots)@) == views(old(active_roots)@).push(path@),
        (forall|i: int| 0 <= i < old(active_order)@.len() ==> !same_path(#[trigger] old(active_order)@[i]@, path@)) ==> views(final(active_order)@) == seq![path@] + views(old(active_order)@),
        forall|p: int| 0 <= p < old(active_order)@.len() && same_path(old(active_order)@[p]@, path@)
            && (forall|q: int| 0 <= q < p ==> !same_path(#[trigger] old(active_order)@[q]@, path@))
            ==> views(final(active_order)@) == seq![path@] + views(old(active_order)@.remove(p)),
{
    let pc = path_components_of(path.as_str());
    let mut present = false;
    let mut i: usize = 0;
    while i < active_roots.len()
        invariant
            i <= active_roots@.len(),
            views_of_chars(pc@) == path_components(path@),
            present <==> exists|k: int| 0 <= k < i && same_path(#[trigger] active_roots@[k]@, path@),
        decreases active_roots@.len() - i,
    {
        let rc = path_components_of(active_roots[i].as_str());
        let same = same_components(&pc, &rc);
        assert(same <==> same_path(active_roots@[i as int]@, path@));
        if same {
            present = true;
        }
        i = i + 1;
    }
    if !present {
        let ghost before = active_roots@;
        active_roots.push(owned(path.as_str()));
        assert(views(active_roots@) == views(before).push(path@));
    }
    let mut pos: Option<usize> = None;
    let mut j: usize = 0;
    while j < active_order.len()
        invariant
            j <= active_order@.len(),
            views_of_chars(pc@) == path_components(path@),
            pos is None ==> forall|k: int| 0 <= k < j ==> !same_path(#[trigger] active_order@[k]@, path@),
            pos matches Some(p) ==> p < active_order@.len() && same_path(active_order@[p as int]@, path@)
                && forall|q: int| 0 <= q < p ==> !same_path(#[trigger] active_order@[q]@, path@),
        decreases active_order@.len() - j,
    {
        if pos.is_none() {
            let rc = path_components_of(active_order[j].as_str());
            let same = same_components(&pc, &rc);
            assert(same <==> same_path(active_order@[j as int]@, path@));
            if same {
                pos = Some(j);
            }
        }
        j = j + 1;
    }
    let ghost before_order = active_order@;
    match pos {
        Some(p) => {
            active_order.remove(p);
            proof {
                assert forall|p2: int| 0 <= p2 < before_order.len() && same_path(before_order[p2]@, path@)
                    && (forall|q: int| 0 <= q < p2 ==> !same_path(#[trigger] before_order[q]@, path@)) implies p2 == p by {
                    if p2 < p {
                    } else if p2 > p {
                    }
                }
            }
        },
        None => {},
    }
    let ghost mid = active_order@;
    active_order.insert(0, path);
    assert(views(active_order@) == seq![path@] + views(mid));
}

/// The 4-byte little-endian length prefix of a message of `len` bytes (the
/// length taken modulo 2^32, as `as u32` does).
pub open spec fn len_prefix(len: nat) -> Seq<u8> {
    let n = len % 0x1_0000_0000;
    seq![(n % 256) as u8, ((n / 256) % 256) as u8, ((n / 0x1_0000) % 256) as u8, ((n / 0x100_0000) % 256) as u8]
}

/// A message on the daemon's socket: length prefix, then the JSON payload.
pub fn frame_message(payload: &[u8]) -> (r: Vec<u8>)
    ensures
        r@ == len_prefix(payload@.len()) + payload@,
{
    let n: u64 = (payload.len() as u64) % 0x1_0000_0000;
    let mut r: Vec<u8> = Vec::new();
    r.push((n % 256) as u8);
    r.push(((n / 256) % 256) as u8);
    r.push(((n / 0x1_0000) % 256) as u8);
    r.push(((n / 0x100_0000) % 256) as u8);
    let mut i: usize = 0;
    while i < payload.len()
        invariant
            i <= payload@.len(),
            r@ == len_prefix(payload@.len()) + payload@.take(i as int),
        decreases payload@.len() - i,
    {
        r.push(payload[i]);
        assert(payload@.take(i + 1) == payload@.take(i as int).push(payload@[i as int]));
        i = i + 1;
    }
    assert(payload@.take(payload@.len() as int) == payload@);
    r
}

/// The payload length a 4-byte little-endian prefix announces.
pub open spec fn prefix_len(h: Seq<u8>) -> nat {
    h[0] as nat + h[1] as nat * 256 + h[2] as nat * 0x1_0000 + h[3] as nat * 0x100_0000
}

/// Reads the payload length from a message's first four bytes.
pub fn frame_length(header: &[u8; 4]) -> (r: u64)
    ensures
        r == prefix_len(header@),
{
    header[0] as u64 + header[1] as u64 * 256 + header[2] as u64 * 0x1_0000 + header[3] as u64 * 0x100_0000
}

/// Reading back the prefix of a framed message gives the payload's length,
/// for any payload of at most `u32::MAX` bytes.
pub proof fn framing_roundtrip(len: nat)
    requires
        len <= u32::MAX,
    ensures
        prefix_len(len_prefix(len)) == len,
{
    let n = len % 0x1_0000_0000;
    assert(n == len);
    assert(prefix_len(len_prefix(len)) == n % 256 + ((n / 256) % 256) * 256 + ((n / 0x1_0000) % 256) * 0x1_0000 + ((n / 0x100_0000) % 256) * 0x100_0000);
    assert(n % 256 + ((n / 256) % 256) * 256 + ((n / 0x1_0000) % 256) * 0x1_0000 + ((n / 0x100_0000) % 256) * 0x100_0000 == n) by (nonlinear_arith)
        requires
            n < 0x1_0000_0000,
    ;
}

/// A cached banner younger than this (in milliseconds) survives change events.
pub const MIN_INVALIDATION_AGE_MS: u128 = 10_000;

/// What a change event under a watched directory does.
#[derive(Debug, Clone, Copy, PartialEq, Eq, Structural)]
pub enum WatchEffect {
    /// The owning root's banner is dropped (and its sizes pruned).
    InvalidateBanner,
    /// Only the owning root's cached directory sizes are pruned.
    PruneSizes,
}

/// A change to a probed file: a modification of a file (not a directory)
/// whose lower-cased name has a probed extension.
pub open spec fn probed_change(is_modify: bool, is_dir: bool, name: Option<Seq<char>>) -> bool {
    is_modify && !is_dir && match name {
        Some(n) => exists|i: int| 0 <= i < crate::datacache::probe_extensions().len()
            && crate::text::has_suffix(crate::text::ascii_lower_seq(n), #[trigger] crate::datacache::probe_extensions()[i]),
        None => false,
    }
}

/// The banner is invalidated by an event on the root itself or by a change
/// to a probed file; other events only prune sizes.
pub fn watch_effect(is_root_event: bool, is_modify: bool, is_dir: bool, name: Option<&str>) -> (r: WatchEffect)
    ensures
        r == (if is_root_event || probed_change(is_modify, is_dir, match name {
            Some(n) => Some(n@),
            None => None,
        }) {
            WatchEffect::InvalidateBanner
        } else {
            WatchEffect::PruneSizes
        }),
{
    if is_root_event {
        return WatchEffect::InvalidateBanner;
    }
    let probed = if is_modify && !is_dir {
        match name {
            Some(n) => {
                let lower = crate::text::to_ascii_lowercase(n);
                crate::datacache::is_content_probe_ext(lower.as_str())
            },
            None => false,
        }
    } else {
        false
    };
    if probed {
        WatchEffect::InvalidateBanner
    } else {
        WatchEffect::PruneSizes
    }
}

/// The watcher and the data cache agree on which files are content probes:
/// a modification of a file invalidates its root's banner exactly when the
/// data cache counts the file's lower-cased name as probed.
pub proof fn watcher_agrees_with_data_cache(name: Seq<char>)
    ensures
        probed_change(true, false, Some(name)) == crate::datacache::is_probe_name(crate::text::ascii_lower_seq(name)),
{
}

/// A cached banner may be dropped unless it is younger than
/// [`MIN_INVALIDATION_AGE_MS`] (`None`: nothing cached).
pub fn may_invalidate(cached_age_ms: Option<u128>) -> (r: bool)
    ensures
        r == !(cached_age_ms matches Some(a) && a < MIN_INVALIDATION_AGE_MS),
{
    match cached_age_ms {
        Some(a) => a >= MIN_INVALIDATION_AGE_MS,
        None => true,
    }
}

/// How deep below an active folder its descendants are watched.
pub const ACTIVE_WATCH_DEPTH: usize = 3;

/// At most this many paths are watched for all active folders together.
pub const MAX_ACTIVE_WATCH_DIRS: usize = 2048;

/// What gathering the watch targets does with one path.
#[derive(Debug, Clone, Copy, PartialEq, Eq, Structural)]
pub enum WatchVisit {
    /// Not watched, nor anything below it.
    Ignore,
    /// Watched; it has no entries to visit.
    Watch,
    /// Watched, and its entries visited one level deeper.
    WatchAndDescend,
}

/// The directory's name is one of the skipped ones.
pub open spec fn skipped_name(path: Seq<char>) -> bool {
    match file_name_of(path) {
        Some(n) => skip_dirs().contains(n),
        None => false,
    }
}

/// The visit of `path`, `depth` levels below its active folder, when
/// `collected` targets are gathered already; `metadata` is whether the path
/// is a symbolic link and whether it leads to a directory (`None` where it
/// cannot be read). Nothing is watched once the cap is reached or below the
/// depth limit, nor a link that does not lead to a directory, nor a skipped
/// directory; a directory is watched and visited, anything else watched alone.
pub open spec fn watch_visit_spec(path: Seq<char>, depth: nat, collected: nat, metadata: Option<(bool, bool)>) -> WatchVisit {
    if collected >= MAX_ACTIVE_WATCH_DIRS || depth > ACTIVE_WATCH_DEPTH {
        WatchVisit::Ignore
    } else {
        match metadata {
            None => WatchVisit::Ignore,
            Some((is_symlink, is_dir)) => if is_symlink && !is_dir {
                WatchVisit::Ignore
            } else if is_dir && skipped_name(path) {
                WatchVisit::Ignore
            } else if is_dir {
                WatchVisit::WatchAndDescend
            } else {
                WatchVisit::Watch
            },
        }
    }
}

/// Decides the visit of one path while gathering watch targets.
pub fn watch_visit(path: &str, depth: usize, collected: usize, metadata: Option<(bool, bool)>) -> (r: WatchVisit)
    ensures
        r == watch_visit_spec(path@, depth as nat, collected as nat, metadata),
{
    if collected >= MAX_ACTIVE_WATCH_DIRS || depth > ACTIVE_WATCH_DEPTH {
        return WatchVisit::Ignore;
    }
    match metadata {
        None => WatchVisit::Ignore,
        Some((is_symlink, is_dir)) => if is_symlink && !is_dir {
            WatchVisit::Ignore
        } else if is_dir && should_skip_dir(path) {
            WatchVisit::Ignore
        } else if is_dir {
            WatchVisit::WatchAndDescend
        } else {
            WatchVisit::Watch
        },
    }
}

/// A watch registration stays while its active folder is still active and
/// exists, and the watched path exists or is the active folder itself.
pub fn keep_registration(owner_active: bool, owner_exists: bool, watched_exists: bool, watched_is_owner: bool) -> (r: bool)
    ensures
        r == (owner_active && owner_exists && (watched_exists || watched_is_owner)),
{
    owner_active && owner_exists && (watched_exists || watched_is_owner)
}

/// Some root of `roots` is the same path as `path`.
pub open spec fn among_roots(roots: Seq<String>, path: Seq<char>) -> bool {
    exists|i: int| 0 <= i < roots.len() && same_path(#[trigger] roots[i]@, path)
}

/// Whether `path` is one of the active roots.
pub fn is_active_root(roots: &[String], path: &str) -> (r: bool)
    ensures
        r == among_roots(roots@, path@),
{
    let pc = path_components_of(path);
    let mut i: usize = 0;
    while i < roots.len()
        invariant
            i <= roots@.len(),
            views_of_chars(pc@) == path_components(path@),
            forall|k: int| 0 <= k < i ==> !same_path(#[trigger] roots@[k]@, path@),
        decreases roots@.len() - i,
    {
        let rc = path_components_of(roots[i].as_str());
        if same_components(&pc, &rc) {
            assert(same_path(roots@[i as int]@, path@));
            return true;
        }
        i = i + 1;
    }
    false
}

/// The paths of `order`, in order, that are among `roots`.
pub open spec fn order_among(order: Seq<Seq<char>>, roots: Seq<String>) -> Seq<Seq<char>>
    decreases order.len(),
{
    if order.len() == 0 {
        Seq::empty()
    } else if among_roots(roots, order.last()) {
        order_among(order.drop_last(), roots).push(order.last())
    } else {
        order_among(order.drop_last(), roots)
    }
}

/// Keeps in the most-recently-used order only the folders that are still active.
pub fn retain_active_order(order: &mut Vec<String>, roots: &[String])
    ensures
        views(final(order)@) == order_among(views(old(order)@), roots@),
{
    let ghost orig = views(order@);
    let mut kept: Vec<String> = Vec::new();
    let mut i: usize = 0;
    while i < order.len()
        invariant
            i <= order@.len(),
            orig == views(order@),
            views(kept@) == order_among(orig.take(i as int), roots@),
        decreases order@.len() - i,
    {
        assert(orig.take(i + 1).drop_last() == orig.take(i as int));
        assert(orig.take(i + 1).last() == order@[i as int]@);
        if is_active_root(roots, order[i].as_str()) {
            let ghost before = kept@;
            kept.push(owned(order[i].as_str()));
            assert(views(kept@) == views(before).push(order@[i as int]@));
        }
        i = i + 1;
    }
    assert(orig.take(orig.len() as int) == orig);
    *order = kept;
}

} // verus!
