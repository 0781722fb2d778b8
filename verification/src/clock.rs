//! The wall clock, read once per forwarded batch to stamp the ingestion
//! timestamp.
use vstd::prelude::*;

verus! {

/// Relies on chrono's `Utc::now` and `DateTime::timestamp_millis`: the
/// current instant, in milliseconds since the epoch. Nothing is promised of
/// the value — it depends on the clock.
#[verifier::external_body]
pub fn now_timestamp_millis() -> i64 {
    chrono::Utc::now().timestamp_millis()
}

} // verus!
