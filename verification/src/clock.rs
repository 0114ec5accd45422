//! The wall clock, as the control plane reads it.

use vstd::prelude::*;

verus! {

/// The current time in whole seconds since the Unix epoch, read with
/// chrono's `Utc::now` and `DateTime::timestamp`.
///
/// Nothing is claimed of the value: two readings may differ in either
/// direction. `Utc::now` panics if the system clock is set before 1970
/// or beyond the dates that chrono can hold.
#[verifier::external_body]
pub(crate) fn unix_timestamp() -> (now: i64) {
    k8s_openapi::chrono::Utc::now().timestamp()
}

} // verus!
