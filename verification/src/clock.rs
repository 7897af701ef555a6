use vstd::prelude::*;
use chrono::Utc;
use std::time::Instant;

verus! {

/// A point in time, as seconds and nanoseconds since the Unix epoch (UTC).
#[derive(Clone, Copy, Debug, PartialEq, Eq, Structural)]
pub struct Timestamp {
    pub secs: i64,
    pub nanos: u32,
}

/// `std::time::Instant`, a reading of the monotonic clock, carried as it is.
#[verifier::external_type_specification]
#[verifier::external_body]
pub struct ExInstant(Instant);

/// Reads the clock through `chrono::Utc::now` and returns its seconds and sub-second
/// nanoseconds since the Unix epoch. The reading depends on the system clock, so nothing is
/// promised of its value. (chrono panics if the system clock reads a time before 1970.)
#[verifier::external_body]
pub(crate) fn now_utc() -> (t: Timestamp) {
    let now = Utc::now();
    Timestamp { secs: now.timestamp(), nanos: now.timestamp_subsec_nanos() }
}

} // verus!
