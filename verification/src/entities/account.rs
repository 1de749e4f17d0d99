//! The account entity: identity plus one-way password verification.
//!
//! The credential is never stored or handed around in plaintext: at
//! sign-up it is hashed once, and verification re-hashes the candidate
//! with the parameters recorded in the stored hash and compares.  The
//! hashing itself lives behind trusted wrappers around argon2; the
//! uninterpreted [`password_matches`] names its verdict, so contracts
//! up the stack can speak about which password unlocks which account
//! without restating the algorithm.

use vstd::prelude::*;
use argon2::Argon2;
use argon2::password_hash::{PasswordHash, PasswordHasher, PasswordVerifier, SaltString};
use argon2::password_hash::rand_core::OsRng;

verus! {

/// Whether argon2 verification of `password` against the password-hash
/// string `hash` succeeds.  Verification recomputes the hash with the
/// algorithm, parameters and salt serialized in `hash`, so the verdict
/// is a function of these two strings alone.
pub uninterp spec fn password_matches(hash: Seq<char>, password: Seq<char>) -> bool;

/// Relies on argon2's `SaltString::generate` and
/// `Argon2::hash_password`: the returned PHC string records algorithm,
/// parameters, the fresh salt and the digest, so verifying it against
/// the same password recomputes the same digest and succeeds.  The
/// salt is random, so nothing further is promised.  Hashing fails only
/// for passwords over `MAX_PWD_LEN` (2^32 - 1) bytes, which the bound
/// on the character count rules out.
#[verifier::external_body]
fn hash(password: &str) -> (r: String)
    requires
        password@.len() < 0x4000_0000,
    ensures
        password_matches(r@, password@),
{
    let salt = SaltString::generate(&mut OsRng);
    Argon2::default().hash_password(password.as_bytes(), &salt).unwrap().to_string()
}

/// Relies on argon2's `PasswordHash::new` and
/// `Argon2::verify_password`: parse the stored PHC string and check
/// the candidate password against it.  A stored string that does not
/// parse matches no password.
#[verifier::external_body]
fn verify_hash(hash: &str, password: &str) -> (r: bool)
    ensures
        r == password_matches(hash@, password@),
{
    match PasswordHash::new(hash) {
        Ok(parsed) => Argon2::default().verify_password(password.as_bytes(), &parsed).is_ok(),
        Err(_) => false,
    }
}

/// An account: identifier (absent until persisted), the argon2 hash of
/// its password, and its unique display name.
#[derive(Debug, Clone)]
pub struct Account {
    pub id: Option<i64>,
    pub hashed_password: String,
    pub display_name: String,
}

impl Account {
    /// Rebuild an account from persisted fields, as storage hands them
    /// back.
    pub fn new(id: Option<i64>, hashed_password: String, display_name: String) -> (account: Account)
        ensures
            account.id == id,
            account.hashed_password@ == hashed_password@,
            account.display_name@ == display_name@,
    {
        Account { id, hashed_password, display_name }
    }

    /// A brand-new account at sign-up: no identifier yet, and the
    /// password stored only as its hash.
    pub fn create(password: &str, display_name: &str) -> (account: Account)
        requires
            password@.len() < 0x4000_0000,
        ensures
            account.id is None,
            account.display_name@ == display_name@,
            password_matches(account.hashed_password@, password@),
    {
        Account { id: None, hashed_password: hash(password), display_name: display_name.to_owned() }
    }

    pub fn id(&self) -> (r: Option<i64>)
        ensures
            r == self.id,
    {
        self.id
    }

    /// Re-hash-and-compare: does this candidate password unlock the
    /// account?
    pub fn matches_password(&self, password: &str) -> (r: bool)
        ensures
            r == password_matches(self.hashed_password@, password@),
    {
        verify_hash(self.hashed_password.as_str(), password)
    }
}

} // verus!
