//! The authenticated caller, as the transport layer hands it to the core.

use vstd::prelude::*;

verus! {

/// Identity of the authenticated account making a request.  The
/// transport layer resolves the session token to an account identifier
/// before any core function runs; the core only ever sees this struct.
#[derive(Clone, Copy, PartialEq, Eq, Structural, Debug)]
pub struct UserContext {
    pub user_id: i64,
}

} // verus!
