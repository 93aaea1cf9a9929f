//! The two host facilities the store draws on: random identifiers and the
//! wall clock. Both are inherently nondeterministic, so their contracts
//! state only what holds of every outcome.

use vstd::prelude::*;

verus! {

/// Relies on uuid::Uuid::new_v4 and its Display form: a version-4 random
/// identifier rendered as 36 characters (lowercase hex in five
/// hyphen-separated groups). The result is random, so nothing is assumed
/// beyond its length; in particular no freshness.
#[verifier::external_body]
pub(crate) fn fresh_id() -> (r: String)
    ensures
        r@.len() == 36,
{
    uuid::Uuid::new_v4().to_string()
}

/// Relies on chrono::Utc::now, which panics rather than return an instant
/// before the Unix epoch, and on DateTime::timestamp_millis, the
/// milliseconds since that epoch: non-negative whenever the call returns.
#[verifier::external_body]
fn utc_now_millis() -> (t: i64)
    ensures
        t >= 0,
{
    chrono::Utc::now().timestamp_millis()
}

/// The current wall-clock instant, in Unix milliseconds. Successive calls
/// carry no ordering promise: the wall clock may be adjusted between them.
pub fn now_millis() -> u64 {
    let t = utc_now_millis();
    t as u64
}

} // verus!
