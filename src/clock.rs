//! Time sources.
//!
//! The buckets measure time on tokio's monotonic clock, as nanoseconds since
//! an origin taken when the bucket is built. The window counters use the wall
//! clock, as time since the UNIX epoch, so that counters built apart agree on
//! window boundaries.

use std::time::UNIX_EPOCH;
use tokio::time::Instant;
use vstd::prelude::*;

verus! {

/// Nanoseconds in one second.
pub const NANOS_PER_SEC: u128 = 1_000_000_000;

#[verifier::external_type_specification]
#[verifier::external_body]
pub struct ExInstant(tokio::time::Instant);

/// Relies on tokio::time::Instant::now: reads the monotonic clock. Nothing is
/// known of the value it returns.
pub assume_specification[ tokio::time::Instant::now ]() -> tokio::time::Instant;

/// Relies on tokio::time::Instant::elapsed: the time since `origin` on the
/// monotonic clock (zero if `origin` lies ahead), in nanoseconds. It depends on
/// when it is called, so nothing is stated of it.
#[verifier::external_body]
pub(crate) fn nanos_since(origin: &Instant) -> (r: u128) {
    origin.elapsed().as_nanos()
}

/// Relies on std::time::SystemTime::elapsed, called on `UNIX_EPOCH`: the
/// wall-clock time since the epoch as whole seconds and the nanoseconds past
/// them, or `None` when the clock reads earlier than the epoch. The
/// nanoseconds come from `Duration::subsec_nanos`, which is always below one
/// billion.
#[verifier::external_body]
fn unix_time() -> (r: Option<(u64, u32)>)
    ensures
        r matches Some(t) ==> (t.1 as u128) < NANOS_PER_SEC,
{
    match UNIX_EPOCH.elapsed() {
        Ok(d) => Some((d.as_secs(), d.subsec_nanos())),
        Err(_) => None,
    }
}

/// Nanoseconds since the UNIX epoch for a wall-clock reading of whole
/// seconds and the nanoseconds past them; a reading before the epoch counts
/// as the epoch itself.
pub open spec fn reading_nanos(reading: Option<(u64, u32)>) -> nat {
    match reading {
        Some(t) => (t.0 * NANOS_PER_SEC + t.1) as nat,
        None => 0,
    }
}

/// Whole seconds since the UNIX epoch for a wall-clock reading; a reading
/// before the epoch counts as the epoch itself.
pub open spec fn reading_seconds(reading: Option<(u64, u32)>) -> u64 {
    match reading {
        Some(t) => t.0,
        None => 0,
    }
}

/// Converts a wall-clock reading to nanoseconds since the UNIX epoch.
pub fn epoch_nanos(reading: Option<(u64, u32)>) -> (r: u128)
    ensures
        r as nat == reading_nanos(reading),
{
    match reading {
        Some((secs, nanos)) => secs as u128 * NANOS_PER_SEC + nanos as u128,
        None => 0,
    }
}

/// Converts a wall-clock reading to whole seconds since the UNIX epoch.
pub fn epoch_seconds(reading: Option<(u64, u32)>) -> (r: u64)
    ensures
        r == reading_seconds(reading),
{
    match reading {
        Some((secs, _)) => secs,
        None => 0,
    }
}

/// Whole seconds since the UNIX epoch on the wall clock, as
/// [`epoch_seconds`] gives them for the present reading.
pub(crate) fn unix_seconds() -> (r: u64)
    ensures
        exists|reading: Option<(u64, u32)>| r == reading_seconds(reading),
{
    epoch_seconds(unix_time())
}

/// Nanoseconds since the UNIX epoch on the wall clock, as [`epoch_nanos`]
/// gives them for the present reading, whose nanosecond part is below one
/// billion.
pub(crate) fn unix_nanos() -> (r: u128)
    ensures
        exists|reading: Option<(u64, u32)>|
            (reading matches Some(t) ==> (t.1 as u128) < NANOS_PER_SEC) && r as nat
                == reading_nanos(reading),
{
    let reading = unix_time();
    epoch_nanos(reading)
}

} // verus!
