//! Cached test results: how long the last run took and how long ago it was.

use vstd::prelude::*;
use crate::float_fmt::{f64_of_ratio, f64_of_ratio_u128, fixed1_text, push_fixed1};
use crate::text::{dec_digits, owned, push_str, push_u128, push_u64};

verus! {

/// Results of the last test run.
#[derive(Debug, Clone, Copy)]
pub struct TestResults {
    pub passed: usize,
    pub failed: usize,
    pub ignored: usize,
    pub duration_ms: u64,
    /// Unix timestamp (seconds) of the run.
    pub timestamp: i64,
}

/// `just now` under a minute (also for times in the future), then whole
/// minutes, hours or days: `5m ago`, `3h ago`, `2d ago`.
pub open spec fn ago_text(diff: int) -> Seq<char> {
    if diff < 60 {
        "just now"@
    } else if diff < 3600 {
        dec_digits((diff / 60) as nat) + "m ago"@
    } else if diff < 86400 {
        dec_digits((diff / 3600) as nat) + "h ago"@
    } else {
        dec_digits((diff / 86400) as nat) + "d ago"@
    }
}

/// The age text of a time `then` seen at `now` (both Unix seconds).
pub open spec fn age_at(now: i64, then: i64) -> Seq<char> {
    ago_text(now - then)
}

/// The text for an age of `now - then` seconds.
pub fn format_age(now: i64, then: i64) -> (r: String)
    ensures
        r@ == ago_text(now - then),
{
    let diff: i128 = now as i128 - then as i128;
    if diff < 60 {
        return owned("just now");
    }
    let mut s = String::new();
    if diff < 3600 {
        push_u128(&mut s, (diff / 60) as u128);
        push_str(&mut s, "m ago");
    } else if diff < 86400 {
        push_u128(&mut s, (diff / 3600) as u128);
        push_str(&mut s, "h ago");
    } else {
        push_u128(&mut s, (diff / 86400) as u128);
        push_str(&mut s, "d ago");
    }
    s
}

/// `123ms` below a second, else seconds with one decimal (`1.5s`): the double
/// nearest to `ms / 1000`, printed like `{:.1}`.
pub open spec fn duration_text(ms: nat) -> Seq<char> {
    if ms < 1000 {
        dec_digits(ms) + "ms"@
    } else {
        let q = f64_of_ratio(ms, 1000);
        fixed1_text(q.0, q.1) + "s"@
    }
}

/// Formats a duration in milliseconds (see [`duration_text`]).
pub fn format_ms(ms: u64) -> (r: String)
    ensures
        r@ == duration_text(ms as nat),
{
    let mut s = String::new();
    if ms < 1000 {
        push_u64(&mut s, ms);
        push_str(&mut s, "ms");
    } else {
        let q = f64_of_ratio_u128(ms as u128, 1000);
        push_fixed1(&mut s, q.0, q.1);
        push_str(&mut s, "s");
    }
    s
}

impl TestResults {
    /// Format duration as human-readable string
    pub fn format_duration(&self) -> (r: String)
        ensures
            r@ == duration_text(self.duration_ms as nat),
    {
        format_ms(self.duration_ms)
    }

    /// How long ago the run was, seen at Unix time `now`.
    pub fn format_time_ago_at(&self, now: i64) -> (r: String)
        ensures
            r@ == ago_text(now - self.timestamp),
    {
        format_age(now, self.timestamp)
    }

    /// Format time ago as human-readable string, against the clock.
    pub fn format_time_ago(&self) -> (r: String)
        ensures
            exists|now: i64| r@ == #[trigger] age_at(now, self.timestamp),
    {
        let now = crate::clock::unix_now().0;
        let r = self.format_time_ago_at(now);
        assert(r@ == age_at(now, self.timestamp));
        r
    }

    /// Cached results older than an hour are not shown.
    pub fn is_expired_at(&self, now: i64) -> (r: bool)
        ensures
            r == (now - self.timestamp > 3600),
    {
        now as i128 - self.timestamp as i128 > 3600
    }
}

} // verus!
