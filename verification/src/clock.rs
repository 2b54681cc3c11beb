//! The wall clock that stamps samples.

use vstd::prelude::*;

verus! {

/// Reads the current time as whole seconds since the Unix epoch, through
/// `chrono::Utc::now` and `chrono::DateTime::timestamp`.
///
/// Nothing is claimed of the value: it is whatever the system clock says at
/// the moment of the call, and two calls may differ in either direction.
/// `Utc::now` does not return when the system clock is set before the epoch.
#[verifier::external_body]
pub(crate) fn unix_seconds() -> (now: i64) {
    chrono::Utc::now().timestamp()
}

} // verus!
