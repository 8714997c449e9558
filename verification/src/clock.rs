//! The two clocks that the watcher reads, and the range of timestamps that
//! the calendar can hold. The functions here are not proved: each states what
//! is taken on trust from `std::time` and `chrono`.

use vstd::prelude::*;

verus! {

/// `std::time::Instant`, a reading of the monotonic clock. Opaque.
#[verifier::external_type_specification]
#[verifier::external_body]
pub struct ExInstant(std::time::Instant);

/// The seconds, counted from the Unix epoch, of the first moment that
/// `chrono` can hold as a UTC date and time: midnight before 1 January of the
/// year -262143.
pub const MIN_UTC_TIMESTAMP: i64 = -8_334_601_228_800;

/// The seconds of the last whole second that `chrono` can hold: the one
/// before midnight after 31 December of the year 262142.
pub const MAX_UTC_TIMESTAMP: i64 = 8_210_266_876_799;

/// Whether `chrono` can hold the moment `secs` seconds after the Unix epoch
/// as a UTC date and time.
pub open spec fn utc_timestamp_in_range(secs: int) -> bool {
    MIN_UTC_TIMESTAMP <= secs <= MAX_UTC_TIMESTAMP
}

/// Calls `std::time::Instant::now`. Trusted; nothing is claimed of the
/// reading.
#[verifier::external_body]
pub(crate) fn instant_now() -> (now: std::time::Instant) {
    std::time::Instant::now()
}

/// Calls `Instant::elapsed` and hands back the whole seconds and the
/// nanoseconds beyond them. Trusted; nothing is claimed of the reading.
#[verifier::external_body]
pub(crate) fn elapsed_since(start: &std::time::Instant) -> (elapsed: (u64, u32)) {
    let elapsed = start.elapsed();
    (elapsed.as_secs(), elapsed.subsec_nanos())
}

/// Calls `chrono::Utc::now` and hands back the reading as seconds since the
/// Unix epoch and nanoseconds within the second. Trusted; nothing is claimed
/// of the reading. The call unwinds where the system clock reads a moment
/// before the Unix epoch or beyond the last date that `chrono` can hold.
#[verifier::external_body]
pub(crate) fn utc_now() -> (now: (i64, u32)) {
    let now = chrono::Utc::now();
    (now.timestamp(), now.timestamp_subsec_nanos())
}

/// Calls `chrono::TimeZone::timestamp_opt` on `Utc` with no nanoseconds and
/// reports whether it gave a single date and time. Trusted: that is claimed
/// to be so exactly for the seconds from [`MIN_UTC_TIMESTAMP`] to
/// [`MAX_UTC_TIMESTAMP`], the moments of the years -262143 to 262142, which
/// are the years that `chrono` accepts in a date.
#[verifier::external_body]
pub(crate) fn utc_timestamp_is_single(secs: i64) -> (single: bool)
    ensures
        single == utc_timestamp_in_range(secs as int),
{
    matches!(chrono::TimeZone::timestamp_opt(&chrono::Utc, secs, 0), chrono::LocalResult::Single(_))
}

} // verus!
