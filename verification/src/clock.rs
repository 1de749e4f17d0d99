//! The wall clock, behind a trusted boundary.
//!
//! Entities stamp their rows with the current time in seconds since
//! the Unix epoch.  Nothing in the core depends on the value: no
//! contract pins it down, so every caller's postcondition holds
//! whatever the clock returns.

use vstd::prelude::*;

verus! {

/// Relies on chrono's `Utc::now` (with `DateTime::timestamp`) for the
/// current time.  The result depends on the wall clock, so nothing is
/// promised of it.
#[verifier::external_body]
pub(crate) fn now_epoch_seconds() -> i64 {
    chrono::Utc::now().timestamp()
}

} // verus!
