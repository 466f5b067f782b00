use vstd::prelude::*;

verus! {

/// Relies on `chrono::Utc::now`: the current time in whole seconds since the
/// Unix epoch. Nothing is known of the value.
#[verifier::external_body]
pub(crate) fn unix_now() -> (r: i64) {
    chrono::Utc::now().timestamp()
}

} // verus!
