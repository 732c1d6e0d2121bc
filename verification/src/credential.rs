//! One-way password hashing and constant-time verification.
//!
//! Hashes are self-describing PHC strings: algorithm identifier, cost
//! parameters, salt and digest all travel inside the string, so a stored
//! hash can be checked later without any external parameter storage.

use vstd::prelude::*;

use crate::errors::AuthError;
use argon2::password_hash::{PasswordHasher, PasswordVerifier};

verus! {

/// Whether the self-describing hash string `stored` was computed from
/// `candidate`.  This names what argon2's verification returns: the
/// outcome depends on the two strings alone, because the algorithm,
/// parameters and salt are all carried inside `stored`.
pub uninterp spec fn hash_matches(stored: Seq<char>, candidate: Seq<char>) -> bool;

/// Relies on argon2's `hash_password` with a fresh random salt: on
/// success the returned PHC string verifies against the same password
/// (`verify_password` recomputes the digest from the parameters and salt
/// carried in the string).
#[verifier::external_body]
fn argon2_hash(password: &str) -> (r: Result<String, AuthError>)
    ensures
        (r matches Ok(h) ==> hash_matches(h@, password@)),
        (r matches Err(e) ==> e == AuthError::HashingError),
{
    let salt = argon2::password_hash::SaltString::generate(&mut rand::rngs::OsRng);
    match argon2::Argon2::default().hash_password(password.as_bytes(), &salt) {
        Ok(h) => Ok(h.to_string()),
        Err(_) => Err(AuthError::HashingError),
    }
}

/// Relies on argon2's `verify_password`: recomputes the digest under the
/// parameters and salt carried in `stored` and compares in constant
/// time.  A malformed `stored` fails exactly like a wrong password.
#[verifier::external_body]
fn argon2_verify(stored: &str, candidate: &str) -> (r: bool)
    ensures
        r == hash_matches(stored@, candidate@),
{
    match argon2::password_hash::PasswordHash::new(stored) {
        Ok(parsed) => argon2::Argon2::default().verify_password(
            candidate.as_bytes(),
            &parsed,
        ).is_ok(),
        Err(_) => false,
    }
}

/// Hash `password` with a fresh random salt into a self-describing string.
///
/// Two calls on the same password return two different strings (the salt
/// is random), yet every string this returns verifies against that
/// password: `verify(h, password)` holds of each successful result `h`.
pub fn hash(password: &str) -> (r: Result<String, AuthError>)
    ensures
        (r matches Ok(h) ==> hash_matches(h@, password@)),
        (r matches Err(e) ==> e == AuthError::HashingError),
{
    argon2_hash(password)
}

/// Check `candidate` against a stored hash string.
///
/// Returns plain `false` both for a digest mismatch and for a stored
/// string that does not parse, so storage corruption is indistinguishable
/// from a wrong password.
pub fn verify(stored: &str, candidate: &str) -> (r: bool)
    ensures
        r == hash_matches(stored@, candidate@),
{
    argon2_verify(stored, candidate)
}

} // verus!
