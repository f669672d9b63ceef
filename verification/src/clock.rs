//! The wall clock, used to stamp new rows.

use vstd::prelude::*;

verus! {

/// Relies on chrono::Utc::now and chrono::DateTime::to_rfc3339: the current
/// wall-clock time rendered as an RFC 3339 string. The clock depends on the
/// environment, so nothing is stated of the result.
#[verifier::external_body]
pub(crate) fn now_rfc3339() -> String {
    chrono::Utc::now().to_rfc3339()
}

} // verus!
