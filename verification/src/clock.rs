//! The wall clock.

use vstd::prelude::*;

verus! {

/// The current time in nanoseconds since the Unix epoch.
///
/// Trusted: the body asks `chrono::Utc::now` for the time and converts it
/// with `DateTime::timestamp_nanos_opt`, which gives `None` for a time that
/// does not fit into 64 bits (a date after the year 2262). Nothing is
/// claimed about the reading, not even that it grows from one call to the
/// next. `Utc::now` fails when the system clock is set before 1970.
#[verifier::external_body]
pub(crate) fn utc_now_nanos() -> (now: Option<i64>) {
    chrono::Utc::now().timestamp_nanos_opt()
}

} // verus!
