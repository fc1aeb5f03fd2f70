//! The wall clock.

use vstd::prelude::*;

verus! {

/// Reads the wall clock with `std::time::SystemTime::now`, converts the
/// instant with chrono's `From<SystemTime> for DateTime<Utc>` and takes the
/// whole seconds since the Unix epoch with `DateTime::timestamp`.
///
/// The conversion turns an instant before the Unix epoch into negative
/// seconds; it covers every instant up to the year 262142, beyond which no
/// system clock counts. Nothing is claimed about the value: two readings may
/// differ in either direction.
#[verifier::external_body]
pub(crate) fn unix_time_now() -> i64 {
    chrono::DateTime::<chrono::Utc>::from(std::time::SystemTime::now()).timestamp()
}

} // verus!
