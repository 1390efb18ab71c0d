//! The daemon's decisions: the requests it answers, when a cached banner or
//! directory size can be served, and how cached sizes of displayed
//! directories are applied.

use vstd::prelude::*;
use crate::fs::DirEntry;
use crate::watch::{file_name_of, should_skip_dir, skip_dirs};

verus! {

/// A cached banner is served for this long (five minutes), in milliseconds.
pub const BANNER_TTL_MS: u128 = 300_000;

/// A directory size that equals the directory's own inode size and is at
/// most this large is a placeholder, not a measurement.
pub const PLACEHOLDER_SIZE: u64 = 4096;

/// What a client asks the daemon.
#[derive(Debug, Clone)]
pub enum Request {
    /// Get cached banner data for a directory
    Banner { path: String },
    /// Pre-compute banner data for a directory (fire-and-forget)
    Warm { path: String },
    /// Get directory size (recursive)
    DirSize { path: String },
    /// Ping (health check)
    Ping,
    /// Shutdown daemon
    Shutdown,
}

/// What the daemon does with a client's request.
#[derive(Debug, Clone)]
pub enum ClientAction {
    /// Answer with the banner data of the (canonical) directory.
    AnswerBanner { path: String },
    /// Compute the banner in the background and close the connection
    /// without a reply.
    WarmWithoutReply { path: String },
    /// Answer with the directory's size.
    AnswerDirSize { path: String },
    /// Answer `Pong`.
    AnswerPong,
    /// Save the caches and end the daemon; no reply.
    SaveAndExit,
}

/// The request's action: each request kind to its action, the path carried
/// over; only a warm request and a shutdown get no reply.
pub fn client_action(request: &Request) -> (r: ClientAction)
    ensures
        match (request, r) {
            (Request::Banner { path }, ClientAction::AnswerBanner { path: p }) => p@ == path@,
            (Request::Warm { path }, ClientAction::WarmWithoutReply { path: p }) => p@ == path@,
            (Request::DirSize { path }, ClientAction::AnswerDirSize { path: p }) => p@ == path@,
            (Request::Ping, ClientAction::AnswerPong) => true,
            (Request::Shutdown, ClientAction::SaveAndExit) => true,
            _ => false,
        },
{
    match request {
        Request::Banner { path } => ClientAction::AnswerBanner { path: crate::text::owned(path.as_str()) },
        Request::Warm { path } => ClientAction::WarmWithoutReply { path: crate::text::owned(path.as_str()) },
        Request::DirSize { path } => ClientAction::AnswerDirSize { path: crate::text::owned(path.as_str()) },
        Request::Ping => ClientAction::AnswerPong,
        Request::Shutdown => ClientAction::SaveAndExit,
    }
}

/// The daemon ends after this long without a client (ten minutes), in milliseconds.
pub const IDLE_TIMEOUT_MS: u128 = 600_000;

/// The caches are saved at least this often (five minutes), in milliseconds.
pub const SAVE_INTERVAL_MS: u128 = 300_000;

/// What the daemon's accept loop does when no client is waiting.
#[derive(Debug, Clone, Copy, PartialEq, Eq, Structural)]
pub enum DaemonTick {
    /// Leave the loop (the caches are then saved on the way out).
    Stop,
    /// Save the caches, then wait a moment.
    Save,
    /// Wait a moment.
    Wait,
}

/// With no client waiting, the daemon stops when it has been idle longer
/// than [`IDLE_TIMEOUT_MS`] or a shutdown signal came; otherwise it saves its
/// caches when the last save is older than [`SAVE_INTERVAL_MS`], and waits.
pub fn daemon_tick(idle_ms: u128, since_save_ms: u128, shutdown: bool) -> (r: DaemonTick)
    ensures
        r == (if idle_ms > IDLE_TIMEOUT_MS || shutdown {
            DaemonTick::Stop
        } else if since_save_ms > SAVE_INTERVAL_MS {
            DaemonTick::Save
        } else {
            DaemonTick::Wait
        }),
{
    if idle_ms > IDLE_TIMEOUT_MS || shutdown {
        DaemonTick::Stop
    } else if since_save_ms > SAVE_INTERVAL_MS {
        DaemonTick::Save
    } else {
        DaemonTick::Wait
    }
}

/// Whether a cached banner is served as it is.
#[derive(Debug, Clone, Copy, PartialEq, Eq, Structural)]
pub enum BannerPlan {
    Serve,
    Compute,
}

/// A cached banner is served when there is one, younger than the TTL, and
/// its directory has not changed since it was computed; otherwise the
/// banner is computed afresh.
pub fn banner_plan(cached_age_ms: Option<u128>, root_fresh: bool) -> (r: BannerPlan)
    ensures
        r == (match cached_age_ms {
            Some(age) => if age < BANNER_TTL_MS && root_fresh { BannerPlan::Serve } else { BannerPlan::Compute },
            None => BannerPlan::Compute,
        }),
{
    match cached_age_ms {
        Some(age) => if age < BANNER_TTL_MS && root_fresh {
            BannerPlan::Serve
        } else {
            BannerPlan::Compute
        },
        None => BannerPlan::Compute,
    }
}

/// A warm request computes the banner unless a cached one is younger than the TTL.
pub fn warm_needed(cached_age_ms: Option<u128>) -> (r: bool)
    ensures
        r == !(cached_age_ms matches Some(age) && age < BANNER_TTL_MS),
{
    match cached_age_ms {
        Some(age) => age >= BANNER_TTL_MS,
        None => true,
    }
}

/// The size answered for a `DirSize` request from the cache: the cached size
/// when the modification time recorded with it (`None` when none was
/// recorded) equals the directory's current one; `None` when it must be
/// measured.
pub fn cached_dir_size(cached: Option<u64>, cached_mtime: Option<Option<u128>>, current_mtime: Option<u128>) -> (r: Option<u64>)
    ensures
        r == (match cached {
            Some(size) => {
                let recorded = match cached_mtime {
                    Some(m) => m,
                    None => None,
                };
                if recorded == current_mtime { Some(size) } else { None }
            },
            None => None,
        }),
{
    match cached {
        Some(size) => {
            let recorded = match cached_mtime {
                Some(m) => m,
                None => None,
            };
            if recorded == current_mtime {
                Some(size)
            } else {
                None
            }
        },
        None => None,
    }
}

/// A cached size of a displayed directory is still good: it was recorded
/// with the directory's current modification time, the directory's
/// metadata can be read, and it is not a placeholder (the directory's own
/// inode size, at most [`PLACEHOLDER_SIZE`]).
pub open spec fn size_fresh(cached_size: u64, cached_mtime: Option<u128>, current_mtime: Option<u128>, meta: Option<(bool, u64)>) -> bool {
    cached_mtime == current_mtime && match meta {
        Some((is_dir, len)) => !(is_dir && cached_size == len && cached_size <= PLACEHOLDER_SIZE),
        None => false,
    }
}

/// Decides [`size_fresh`].
pub fn cached_dir_size_is_fresh(cached_size: u64, cached_mtime: Option<u128>, current_mtime: Option<u128>, meta: Option<(bool, u64)>) -> (r: bool)
    ensures
        r == size_fresh(cached_size, cached_mtime, current_mtime, meta),
{
    if cached_mtime != current_mtime {
        return false;
    }
    match meta {
        Some((is_dir, len)) => !(is_dir && cached_size == len && cached_size <= PLACEHOLDER_SIZE),
        None => false,
    }
}

/// A displayed directory whose size the daemon tracks: a directory whose
/// name is not one of the skipped ones.
pub open spec fn tracked_dir(e: DirEntry) -> bool {
    e.is_dir && !(match file_name_of(e.path@) {
        Some(n) => skip_dirs().contains(n),
        None => false,
    })
}

/// Applies the good cached sizes (`fresh[i]`, for entry `i`) to the tracked
/// directories among `items`, and says whether some tracked directory had
/// none (its size must be measured again). Other entries are untouched.
pub fn apply_displayed_dir_sizes(items: &mut Vec<DirEntry>, fresh: &[Option<u64>]) -> (needs_refresh: bool)
    requires
        fresh@.len() == old(items)@.len(),
    ensures
        final(items)@.len() == old(items)@.len(),
        forall|i: int| 0 <= i < old(items)@.len() ==> #[trigger] final(items)@[i] == (
            if tracked_dir(old(items)@[i]) && fresh@[i] is Some {
                DirEntry { size: fresh@[i]->0, ..old(items)@[i] }
            } else {
                old(items)@[i]
            }),
        needs_refresh == exists|i: int| 0 <= i < old(items)@.len() && tracked_dir(#[trigger] old(items)@[i]) && fresh@[i] is None,
{
    let ghost orig = items@;
    let mut needs = false;
    let mut i: usize = 0;
    while i < items.len()
        invariant
            i <= items@.len(),
            items@.len() == orig.len(),
            fresh@.len() == orig.len(),
            forall|k: int| 0 <= k < i ==> #[trigger] items@[k] == (
                if tracked_dir(orig[k]) && fresh@[k] is Some {
                    DirEntry { size: fresh@[k]->0, ..orig[k] }
                } else {
                    orig[k]
                }),
            forall|k: int| i <= k < orig.len() ==> #[trigger] items@[k] == orig[k],
            needs == exists|k: int| 0 <= k < i && tracked_dir(#[trigger] orig[k]) && fresh@[k] is None,
        decreases orig.len() - i,
    {
        let is_dir = items[i].is_dir;
        if is_dir && !should_skip_dir(items[i].path.as_str()) {
            match fresh[i] {
                Some(size) => {
                    let mut tmp = DirEntry {
                        name: String::new(),
                        path: String::new(),
                        is_dir: false,
                        is_file: false,
                        is_symlink: false,
                        is_exec: false,
                        size: 0,
                        modified: None,
                        perms: String::new(),
                        owner: String::new(),
                        group: String::new(),
                        symlink_target: None,
                        symlink_valid: true,
                        content_probe: None,
                    };
                    items.set_and_swap(i, &mut tmp);
                    tmp.size = size;
                    items.set_and_swap(i, &mut tmp);
                },
                None => {
                    needs = true;
                },
            }
        }
        proof {
            if tracked_dir(orig[i as int]) && fresh@[i as int] is None {
                assert(needs);
            }
        }
        i = i + 1;
    }
    needs
}

/// The total of the entries' sizes, stopping at `u64::MAX`.
pub open spec fn size_sum(items: Seq<DirEntry>) -> int
    decreases items.len(),
{
    if items.len() == 0 {
        0
    } else {
        let s = size_sum(items.drop_last()) + items.last().size;
        if s > u64::MAX {
            u64::MAX as int
        } else {
            s
        }
    }
}

/// The total size of the displayed entries.
pub fn total_size_of(items: &[DirEntry]) -> (r: u64)
    ensures
        r == size_sum(items@),
{
    let mut t: u64 = 0;
    let mut i: usize = 0;
    while i < items.len()
        invariant
            i <= items@.len(),
            t == size_sum(items@.take(i as int)),
        decreases items@.len() - i,
    {
        assert(items@.take(i + 1).drop_last() == items@.take(i as int));
        t = t.saturating_add(items[i].size);
        i = i + 1;
    }
    assert(items@.take(items@.len() as int) == items@);
    t
}

} // verus!
