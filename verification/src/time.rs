//! The observation clock: events are stamped with the wall-clock time at
//! which they were classified, not with the chain's block time.

use vstd::prelude::*;

verus! {

/// Relies on chrono's `Utc::now` and `DateTime::to_rfc3339`: the moment of
/// the call rendered as RFC 3339 text.  The result depends on the clock, so
/// nothing more is promised of it than that it is non-empty.
#[verifier::external_body]
pub(crate) fn now_timestamp() -> (r: String)
    ensures
        r@.len() > 0,
{
    chrono::Utc::now().to_rfc3339()
}

} // verus!
