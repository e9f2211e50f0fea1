use vstd::prelude::*;

verus! {

/// Relies on chrono::Utc::now: the wall-clock time at the call, as whole
/// seconds since the Unix epoch. Nothing is assumed of the value: every
/// function that consumes it states what holds for any reading.
#[verifier::external_body]
pub(crate) fn now_unix() -> i64 {
    chrono::Utc::now().timestamp()
}

} // verus!
