//! The one place the library touches the system clock.

use vstd::prelude::*;

verus! {

/// Relies on `chrono::Utc::now` followed by `DateTime::timestamp_micros`:
/// the number of non-leap microseconds since the Unix epoch at the moment of
/// the call. The value depends on the clock, so nothing is promised of it;
/// callers clamp it into the supported range of instants. `chrono::Utc::now`
/// panics when the system clock is set before the Unix epoch.
#[verifier::external_body]
pub(crate) fn now_ticks() -> i64 {
    chrono::Utc::now().timestamp_micros()
}

} // verus!
