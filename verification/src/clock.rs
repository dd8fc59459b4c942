use vstd::prelude::*;

verus! {

/// Relies on chrono::Utc::now and DateTime::timestamp: the wall clock,
/// read as whole seconds since the Unix epoch. Nothing is promised of
/// the value: it depends on the clock at the moment of the call. The
/// call aborts the process if the system clock is set before the
/// epoch.
#[verifier::external_body]
pub(crate) fn now_seconds() -> i64 {
    chrono::Utc::now().timestamp()
}

} // verus!
