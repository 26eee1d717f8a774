//! Clock and calendar access for timestamps.

use crate::types::Timestamp;
use chrono::Datelike;
use vstd::prelude::*;

verus! {

/// The calendar date `(year, month, day)` in UTC of a moment given in
/// seconds since the UNIX epoch; moments past the representable calendar
/// stand for the epoch date.
pub uninterp spec fn civil_of(secs: u64) -> (u32, u32, u32);

/// Relies on chrono's `DateTime::from_timestamp` and the `Datelike`
/// accessors: the UTC calendar date is a function of the timestamp alone,
/// months run from 1 to 12, days from 1 to 31, and a timestamp outside the
/// representable calendar falls back to the epoch date.
#[verifier::external_body]
pub fn civil_date(secs: u64) -> (r: (u32, u32, u32))
    ensures
        r == civil_of(secs),
        1 <= r.1 <= 12,
        1 <= r.2 <= 31,
{
    let dt = i64::try_from(secs)
        .ok()
        .and_then(|s| chrono::DateTime::from_timestamp(s, 0))
        .unwrap_or_default();
    (u32::try_from(dt.year()).unwrap_or(1970), dt.month(), dt.day())
}

/// Relies on `std::time::SystemTime`: the seconds since the UNIX epoch as
/// the system clock reads now (zero if the clock reads before the epoch).
#[verifier::external_body]
pub fn current_timestamp() -> Timestamp {
    std::time::SystemTime::now()
        .duration_since(std::time::UNIX_EPOCH)
        .unwrap_or_default()
        .as_secs()
}

} // verus!
