//! The current time, read through `chrono`.

use vstd::prelude::*;

verus! {

/// `chrono::Utc::now().timestamp_millis()`: milliseconds since the Unix
/// epoch. The time is outside anything a contract can state; nothing is
/// claimed of it.
#[verifier::external_body]
pub(crate) fn now_millis() -> (r: i64) {
    chrono::Utc::now().timestamp_millis()
}

/// `chrono::Utc::now().to_rfc3339()`: the current time as RFC 3339 text.
/// Nothing is claimed of it.
#[verifier::external_body]
pub(crate) fn now_rfc3339() -> (r: String) {
    chrono::Utc::now().to_rfc3339()
}

} // verus!
