use vstd::prelude::*;

verus! {

use crate::error::{AppError, AppResult};

/// What argon2's verifier decides for a stored hash string and a password:
/// true exactly when re-deriving the digest with the salt and parameters
/// embedded in the hash string reproduces the stored digest. A function of
/// the two strings alone.
pub uninterp spec fn hash_matches(hash: Seq<char>, password: Seq<char>) -> bool;

/// Whether argon2's verifier reaches a verdict on a stored hash string at
/// all: the string parses as a PHC hash whose algorithm, version,
/// parameters, salt and output length the verifier accepts. Parse and
/// parameter faults depend on the string alone, so this is a function of
/// the hash string.
pub uninterp spec fn phc_usable(hash: Seq<char>) -> bool;

/// Relies on argon2::Argon2::hash_password (Argon2id with default work
/// factors and a fresh 16-byte random salt from the system RNG): on success
/// the returned PHC-encoded string verifies against the hashed password,
/// and is one the verifier reaches a verdict on.
#[verifier::external_body]
fn argon2_hash(password: &str) -> (r: Result<String, ()>)
    ensures
        r matches Ok(h) ==> hash_matches(h@, password@) && phc_usable(h@),
{
    match argon2::PasswordHasher::hash_password(&argon2::Argon2::default(), password.as_bytes()) {
        Ok(h) => Ok(h.to_string()),
        Err(_) => Err(()),
    }
}

/// Relies on argon2::Argon2::verify_password: it re-derives with the
/// parameters and salt embedded in `hash` and compares digests in constant
/// time. Ok exactly on a match; every no-match outcome, an over-long
/// password included, is reported as password_hash::Error::PasswordInvalid;
/// the remaining errors (parse, algorithm, version, parameters, salt,
/// output size) depend on the hash string alone, so a verdict is reached
/// exactly on a usable string (the block buffer's allocation is taken as
/// granted, as the verification model takes every allocation).
#[verifier::external_body]
fn argon2_verify(password: &str, hash: &str) -> (r: Result<bool, ()>)
    ensures
        r is Ok <==> phc_usable(hash@),
        r matches Ok(b) ==> b == hash_matches(hash@, password@),
{
    match argon2::PasswordVerifier::<str>::verify_password(
        &argon2::Argon2::default(),
        password.as_bytes(),
        hash,
    ) {
        Ok(()) => Ok(true),
        Err(argon2::password_hash::Error::PasswordInvalid) => Ok(false),
        Err(_) => Err(()),
    }
}

/// Hash a password with a fresh random salt, returning a self-describing
/// encoded string (algorithm, parameters, salt, digest). Fails only on an
/// unrecoverable cryptographic-library fault, never on weak or short input.
pub fn hash_password(password: &str) -> (r: AppResult<String>)
    ensures
        r matches Ok(h) ==> hash_matches(h@, password@) && phc_usable(h@),
        r matches Err(e) ==> e matches AppError::Internal(_),
{
    match argon2_hash(password) {
        Ok(h) => Ok(h),
        Err(()) => Err(AppError::Internal("Password hashing failed".to_owned())),
    }
}

/// Verify a password against a stored encoded hash. A verdict is owed on
/// every usable hash string: true on a match, false on a wrong password. A
/// hash string the verifier cannot use is an internal fault (data
/// corruption, not user error), never a verdict and never a panic. Nothing
/// beyond false-or-error leaks which check failed.
pub fn verify_password(password: &str, hash: &str) -> (r: AppResult<bool>)
    ensures
        r is Ok <==> phc_usable(hash@),
        r matches Ok(b) ==> b == hash_matches(hash@, password@),
        r matches Err(e) ==> e matches AppError::Internal(_),
{
    match argon2_verify(password, hash) {
        Ok(b) => Ok(b),
        Err(()) => Err(AppError::Internal("Invalid password hash format".to_owned())),
    }
}

/// A hash freshly derived from a password verifies against that password:
/// whenever hashing succeeded, verification of the pair cannot answer false.
pub proof fn lemma_fresh_hash_verifies(hash: Seq<char>, password: Seq<char>, outcome: bool)
    requires
        hash_matches(hash, password),
        outcome == hash_matches(hash, password),
    ensures
        outcome,
{
}

} // verus!
