//! Trusted binding to the password-hashing scheme used for stored
//! credentials.
use vstd::prelude::*;
use argon2::PasswordVerifier;

verus! {

/// Whether `hash` is a well-formed PHC hash string: a function of the
/// characters alone.
pub uninterp spec fn is_phc_hash(hash: Seq<char>) -> bool;

/// Whether `password` matches the PHC hash string: a function of the
/// two arguments alone.
pub uninterp spec fn password_matches(password: Seq<u8>, hash: Seq<char>) -> bool;

/// Outcome of checking a password against a stored hash. A hash that
/// cannot be parsed is reported apart from a mismatch, because the two
/// are answered differently.
#[derive(Clone, Copy, PartialEq, Eq, Structural, Debug)]
pub enum PasswordCheck {
    Matched,
    Mismatched,
    BadHash,
}

/// Relies on `argon2::password_hash::PasswordHash::new` (parsing the
/// PHC string) and `argon2::Argon2::verify_password` under default
/// parameters: both are deterministic in the password and hash string.
#[verifier::external_body]
pub fn check_password(password: &[u8], hash: &str) -> (r: PasswordCheck)
    ensures
        r == (if !is_phc_hash(hash@) {
            PasswordCheck::BadHash
        } else if password_matches(password@, hash@) {
            PasswordCheck::Matched
        } else {
            PasswordCheck::Mismatched
        }),
{
    let parsed = match argon2::password_hash::PasswordHash::new(hash) {
        Ok(p) => p,
        Err(_) => {
            return PasswordCheck::BadHash;
        },
    };
    match argon2::Argon2::default().verify_password(password, &parsed) {
        Ok(()) => PasswordCheck::Matched,
        Err(_) => PasswordCheck::Mismatched,
    }
}

} // verus!
