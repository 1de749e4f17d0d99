//! Session issuance: deciding who may get a token, and the cookie
//! shape a token is delivered in.
//!
//! The token itself is opaque: an outside session store mints it and
//! resolves it back to an account.  The core contributes the
//! authentication decision and the cookie formatting; the transport
//! layer performs the store calls.

use vstd::prelude::*;
use vstd::string::StringExecFns;
use crate::entities::account::{Account, password_matches};

verus! {

/// How long an issued session lives, in seconds: seven days.
pub const SESSION_EXPIRY_SECONDS: u64 = 604800;

/// Decide whether a sign-in attempt succeeds: the account looked up by
/// display name must exist and the candidate password must verify
/// against its stored hash.  On success, the account identifier to
/// bind into the new session; on failure, nothing.
pub fn authenticate(account: Option<Account>, password: &str) -> (r: Option<i64>)
    requires
        match account {
            Some(a) => a.id is Some,
            None => true,
        },
    ensures
        match account {
            None => r is None,
            Some(a) => {
                if password_matches(a.hashed_password@, password@) {
                    r == a.id
                } else {
                    r is None
                }
            },
        },
{
    match account {
        Some(a) => {
            if a.matches_password(password) {
                a.id()
            } else {
                None
            }
        },
        None => None,
    }
}

/// An opaque bearer token minted by the session store.
pub struct SessionToken(String);

impl SessionToken {
    /// The token text, as contracts see it.
    pub closed spec fn spec_value(&self) -> Seq<char> {
        self.0@
    }

    /// Wrap the cookie value the session store handed back.
    pub fn new(value: String) -> (token: SessionToken)
        ensures
            token.spec_value() == value@,
    {
        SessionToken(value)
    }

    /// The `Set-Cookie` payload carrying this token: the fixed cookie
    /// name, the token, and the seven-day expiry.
    pub fn cookie(&self) -> (r: String)
        ensures
            r@ == "rustwi_session="@ + self.spec_value() + "; Max-Age=604800; Path=/; HttpOnly"@,
    {
        let mut s = String::from_str("rustwi_session=");
        s.append(self.0.as_str());
        s.append("; Max-Age=604800; Path=/; HttpOnly");
        s
    }

    pub fn value(&self) -> (r: &str)
        ensures
            r@ == self.spec_value(),
    {
        self.0.as_str()
    }
}

} // verus!
