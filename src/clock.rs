use vstd::prelude::*;

verus! {

/// Relies on `chrono::Utc::now`: the current wall-clock time, as microseconds
/// since the Unix epoch. Nothing is promised of its value.
#[verifier::external_body]
pub fn now_micros() -> (r: i64) {
    chrono::Utc::now().timestamp_micros()
}

} // verus!
