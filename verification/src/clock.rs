//! The time of day.

use vstd::prelude::*;

verus! {

/// A moment, as the system's clock tells it.
#[verifier::external_type_specification]
#[verifier::external_body]
pub struct ExSystemTime(std::time::SystemTime);

/// The moment is before the one it was measured from.
#[verifier::external_type_specification]
#[verifier::external_body]
pub struct ExSystemTimeError(std::time::SystemTimeError);

/// `SystemTime::now`: the clock decides; nothing is claimed of it.
#[verifier::external_body]
fn now() -> (r: std::time::SystemTime)
{
    std::time::SystemTime::now()
}

/// `SystemTime::duration_since` the Unix epoch; nothing is claimed of it.
#[verifier::external_body]
fn since_epoch(t: &std::time::SystemTime) -> (r: Result<
    std::time::Duration,
    std::time::SystemTimeError,
>)
{
    t.duration_since(std::time::UNIX_EPOCH)
}

/// `Duration::as_secs`; nothing is claimed of it.
#[verifier::external_body]
fn whole_seconds(d: &std::time::Duration) -> (r: u64)
{
    d.as_secs()
}

/// Unix seconds of a moment `since` seconds after the epoch; 0 for one before
/// it.
pub open spec fn unix_seconds(since: Option<u64>) -> i64 {
    match since {
        Some(secs) => secs as i64,
        None => 0,
    }
}

/// Unix seconds of a moment `since` seconds after the epoch; 0 for one before
/// it.
pub fn unix_of(since: Option<u64>) -> (r: i64)
    ensures
        r == unix_seconds(since),
{
    match since {
        Some(secs) => secs as i64,
        None => 0,
    }
}

/// Unix seconds now: whatever the system's clock says.
pub fn unix_now() -> (r: i64)
    ensures
        exists|since: Option<u64>| r == #[trigger] unix_seconds(since),
{
    let since = match since_epoch(&now()) {
        Ok(d) => Some(whole_seconds(&d)),
        Err(_) => None,
    };
    unix_of(since)
}

} // verus!
