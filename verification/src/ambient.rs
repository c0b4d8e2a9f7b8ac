//! Trusted boundary around ambient inputs: the wall clock and fresh
//! identifiers. Nothing is promised of these values beyond their shape; all
//! logic that receives them is verified for every possible outcome.

use vstd::prelude::*;

verus! {

/// Relies on chrono's Utc::now: the current wall-clock instant in its
/// default textual rendering.
#[verifier::external_body]
pub fn now_string() -> (r: String) {
    format!("{}", chrono::Utc::now())
}

/// Relies on chrono's timestamp_nanos_opt: nanoseconds since the epoch, or
/// zero when the instant falls outside the representable range.
#[verifier::external_body]
pub fn now_nanos() -> (r: i64) {
    chrono::Utc::now().timestamp_nanos_opt().unwrap_or(0)
}

/// Relies on uuid's Uuid::new_v4: a fresh random identifier in hyphenated
/// textual form.
#[verifier::external_body]
pub fn new_id() -> (r: String) {
    format!("{}", uuid::Uuid::new_v4())
}

} // verus!
