//! The wall clock.

use vstd::prelude::*;

verus! {

/// `time::OffsetDateTime`, a moment in time with an offset from UTC.
/// Nothing is known of what a value holds.
#[verifier::external_type_specification]
#[verifier::external_body]
pub struct ExOffsetDateTime(time::OffsetDateTime);

/// `time::OffsetDateTime::now_utc` reads the system clock. Nothing is
/// claimed of the moment it returns: two calls may differ.
pub assume_specification[ time::OffsetDateTime::now_utc ]() -> (now: time::OffsetDateTime)
;

/// `time::OffsetDateTime::unix_timestamp` gives the seconds between the
/// Unix epoch and a moment. Nothing is claimed of the number.
pub assume_specification[ time::OffsetDateTime::unix_timestamp ](
    moment: time::OffsetDateTime,
) -> (seconds: i64)
;

/// The seconds since the Unix epoch by the system clock. The number is
/// whatever the clock says when it is read, so nothing is promised of
/// it; what is made of it is stated where it is used.
pub(crate) fn unix_now() -> (seconds: i64) {
    time::OffsetDateTime::now_utc().unix_timestamp()
}

} // verus!
