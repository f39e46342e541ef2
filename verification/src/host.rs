//! The two host facilities the analytics draw on: the wall clock and a
//! source of globally unique identifiers. Both are trusted wrappers around
//! outside crates; nothing more is assumed of them than their documentation
//! promises.
use vstd::prelude::*;

verus! {

/// Relies on chrono's `Utc::now` and `DateTime::timestamp_millis`: the wall
/// clock as non-monotonic Unix milliseconds. Nothing is promised of the
/// value: what callers state must hold for every reading.
#[verifier::external_body]
pub(crate) fn now_millis() -> i64 {
    chrono::Utc::now().timestamp_millis()
}

/// Relies on uuid's `Uuid::new_v4` and its `Display` impl: a fresh random
/// version-4 UUID rendered in the 36-character hyphenated form. The value is
/// random, so only its length is promised.
#[verifier::external_body]
pub(crate) fn fresh_id() -> (r: String)
    ensures
        r@.len() == 36,
{
    uuid::Uuid::new_v4().to_string()
}

} // verus!
