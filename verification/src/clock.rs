//! The wall clock.

use vstd::prelude::*;

verus! {

/// The current time from `std::time::SystemTime::now`, as seconds and
/// nanoseconds since the Unix epoch (zero for a clock set before the epoch).
/// Of the result only that the nanoseconds are a fraction of a second
/// (`Duration::subsec_nanos`) is stated: the rest is whatever the clock reads.
#[verifier::external_body]
pub(crate) fn unix_now() -> (r: (i64, u32))
    ensures
        r.1 < 1_000_000_000,
{
    let d = std::time::SystemTime::now().duration_since(std::time::UNIX_EPOCH).unwrap_or_default();
    (d.as_secs() as i64, d.subsec_nanos())
}

} // verus!
