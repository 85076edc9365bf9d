//! Calendar-day arithmetic in the tracker's fixed reference timezone.
//!
//! Attempt timing uses a monotonic clock handed in by the caller as plain
//! milliseconds; only day-boundary comparisons go through the wall clock,
//! and those are delegated to the timezone database.

use vstd::prelude::*;

verus! {

/// Latest wall-clock instant the tracker accepts, in milliseconds since
/// the Unix epoch (the last millisecond of year 9999).
pub const UTC_MS_MAX: i64 = 253402300799999;

/// The calendar day, counted in whole days, on which the wall-clock
/// instant `utc_ms` falls in the reference timezone (`Australia/Sydney`).
pub uninterp spec fn local_day_of(utc_ms: i64) -> int;

/// Relies on `chrono::DateTime::from_timestamp_millis` (total for
/// timestamps up to year 9999) and on the timezone table embedded in
/// `chrono-tz`: the Sydney calendar day of a wall-clock instant is a
/// function of the instant alone, identical on every machine.
#[verifier::external_body]
pub fn day_in_reference_tz(utc_ms: i64) -> (d: i64)
    requires
        0 <= utc_ms <= UTC_MS_MAX,
    ensures
        d == local_day_of(utc_ms),
{
    let utc = chrono::DateTime::<chrono::Utc>::from_timestamp_millis(utc_ms).unwrap();
    let local = utc.with_timezone(&chrono_tz::Australia::Sydney);
    chrono::Datelike::num_days_from_ce(&local.date_naive()) as i64
}

} // verus!
