//! Readings of the system clock.

use vstd::prelude::*;

verus! {

/// `v` was read from the seconds clock, `now_unix_secs`. Every value can be
/// such a reading, so this says nothing of `v` itself; it is closed, so
/// that outside this module it is known exactly of what `now_unix_secs`
/// returned, and contracts use it to say which clock a time came from.
pub closed spec fn read_from_secs_clock(v: u64) -> bool {
    true
}

/// `v` was read from the millisecond clock, `now_unix_millis` (see
/// `read_from_secs_clock`).
pub closed spec fn read_from_millis_clock(v: u64) -> bool {
    true
}

/// Seconds since the Unix epoch, from `std::time::SystemTime::now()`
/// (0 if the clock reads before the epoch). Nothing is promised of the
/// value beyond which clock it came from.
#[verifier::external_body]
pub fn now_unix_secs() -> (r: u64)
    ensures
        read_from_secs_clock(r),
{
    std::time::SystemTime::now()
        .duration_since(std::time::UNIX_EPOCH)
        .map(|d| d.as_secs())
        .unwrap_or(0)
}

/// Milliseconds since the Unix epoch, from `std::time::SystemTime::now()`
/// (0 if the clock reads before the epoch). Nothing is promised of the
/// value beyond which clock it came from.
#[verifier::external_body]
pub fn now_unix_millis() -> (r: u64)
    ensures
        read_from_millis_clock(r),
{
    std::time::SystemTime::now()
        .duration_since(std::time::UNIX_EPOCH)
        .map(|d| d.as_millis() as u64)
        .unwrap_or(0)
}

}

verus! {

/// The current UTC time as an RFC 3339 string, from
/// `chrono::Utc::now().to_rfc3339()`. Nothing is promised of the value.
#[verifier::external_body]
pub fn now_rfc3339() -> String {
    chrono::Utc::now().to_rfc3339()
}

}
