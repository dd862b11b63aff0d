//! The credential hasher: derives and verifies salted password hashes.
//!
//! Hashing draws a fresh random salt and applies the Argon2 memory-hard
//! algorithm; the result is a self-describing encoded string holding the
//! algorithm id, its parameters, the salt and the digest. Verification
//! re-derives the digest with the parameters embedded in the encoded
//! string and compares in constant time, which the argon2 crate does
//! internally.

use vstd::prelude::*;
use argon2::{PasswordHasher, PasswordVerifier};
use rand::Rng;

verus! {

/// The hashing backend refused its parameters; this never depends on the
/// password's content.
#[derive(Clone, Copy, Debug, PartialEq, Eq, Structural)]
pub struct HashingError;

/// Why a password did not verify against an encoded hash.
#[derive(Clone, Copy, Debug, PartialEq, Eq, Structural)]
pub enum VerificationError {
    /// The encoded string is well-formed but the password is wrong.
    Mismatch,
    /// The encoded string cannot be parsed.
    Malformed,
}

/// The name of whether an encoded string parses as a password hash; a
/// function of the string alone.
pub uninterp spec fn argon2_hash_ok(h: Seq<char>) -> bool;

/// The name of whether a password verifies against a parseable encoded
/// hash; a function of the password and the string alone.
pub uninterp spec fn argon2_match(pw: Seq<u8>, h: Seq<char>) -> bool;

/// Relies on rand's thread_rng: sixteen random bytes for a fresh salt.
/// Nothing is promised of their values.
#[verifier::external_body]
fn random_salt_bytes() -> (r: Vec<u8>)
    ensures
        r@.len() == 16,
{
    let mut v = vec![0u8; 16];
    rand::thread_rng().fill(&mut v[..]);
    v
}

/// Relies on argon2's `Argon2::hash_password` with a fresh salt: an
/// encoded string it returns parses back ([`argon2_hash_ok`]) and verifies
/// against the password it was derived from ([`argon2_match`]); and with
/// the default parameters and a 16-byte salt it succeeds for every
/// password up to argon2's own input bound of 4 GiB.
#[verifier::external_body]
fn argon2_hash_with_salt(pw: &[u8], salt: &Vec<u8>) -> (r: Option<String>)
    requires
        salt@.len() == 16,
    ensures
        r matches Some(h) ==> argon2_hash_ok(h@) && argon2_match(pw@, h@),
        pw@.len() <= 0xFFFF_FFFF ==> r is Some,
{
    match argon2::password_hash::SaltString::encode_b64(salt.as_slice()) {
        Ok(s) => match argon2::Argon2::default().hash_password(pw, &s) {
            Ok(h) => Some(h.to_string()),
            Err(_) => None,
        },
        Err(_) => None,
    }
}

/// Relies on argon2's `PasswordHash::new` and `Argon2::verify_password`:
/// whether the encoded string parses, and whether the password verifies
/// against it, are functions of the two arguments alone; those two calls
/// are exactly what [`argon2_hash_ok`] and [`argon2_match`] name.
#[verifier::external_body]
fn argon2_verify_raw(pw: &[u8], encoded: &str) -> (r: Result<(), VerificationError>)
    ensures
        match r {
            Ok(u) => argon2_hash_ok(encoded@) && argon2_match(pw@, encoded@),
            Err(VerificationError::Malformed) => !argon2_hash_ok(encoded@),
            Err(VerificationError::Mismatch) => argon2_hash_ok(encoded@) && !argon2_match(
                pw@,
                encoded@,
            ),
        },
{
    match argon2::PasswordHash::new(encoded) {
        Ok(parsed) => match argon2::Argon2::default().verify_password(pw, &parsed) {
            Ok(()) => Ok(()),
            Err(_) => Err(VerificationError::Mismatch),
        },
        Err(_) => Err(VerificationError::Malformed),
    }
}

/// Hashes a new password with a fresh random salt.
///
/// Succeeds for every password up to argon2's 4 GiB input bound, whatever
/// its content; the encoded string it returns verifies against the same
/// password. Two calls on the same password return different strings
/// because the salt is drawn anew.
pub fn hash_pw(raw_pw: &[u8]) -> (r: Result<String, HashingError>)
    ensures
        r matches Ok(h) ==> argon2_hash_ok(h@) && argon2_match(raw_pw@, h@),
        raw_pw@.len() <= 0xFFFF_FFFF ==> r is Ok,
{
    let salt = random_salt_bytes();
    match argon2_hash_with_salt(raw_pw, &salt) {
        Some(h) => Ok(h),
        None => Err(HashingError),
    }
}

/// Verifies the password against an encoded hash.
///
/// Succeeds exactly when the encoded string parses and the password
/// matches it; a wrong password gives `Mismatch`, an unparsable string
/// gives `Malformed`.
pub fn verify_password(raw_pw: &[u8], pw_hash: &str) -> (r: Result<(), VerificationError>)
    ensures
        r is Ok <==> (argon2_hash_ok(pw_hash@) && argon2_match(raw_pw@, pw_hash@)),
        r == Err::<(), VerificationError>(VerificationError::Malformed) <==> !argon2_hash_ok(
            pw_hash@,
        ),
        r == Err::<(), VerificationError>(VerificationError::Mismatch) <==> (argon2_hash_ok(
            pw_hash@,
        ) && !argon2_match(raw_pw@, pw_hash@)),
{
    argon2_verify_raw(raw_pw, pw_hash)
}

} // verus!
