//! Passwords: hashing a new one, and checking one against a stored hash.

use crate::error::AuthError;
use bcrypt::BcryptError;
use vstd::prelude::*;

verus! {

/// The outside error type of the bcrypt functions.
#[verifier::external_type_specification]
#[verifier::external_body]
pub struct ExBcryptError(BcryptError);

/// The lowest work factor that bcrypt takes.
pub const MIN_WORK_FACTOR: u32 = 4;

/// The highest work factor that bcrypt takes.
pub const MAX_WORK_FACTOR: u32 = 31;

/// The work factor in use where none is chosen.
pub const DEFAULT_WORK_FACTOR: u32 = 12;

/// What bcrypt finds when `password` is held against `hash`: whether they
/// match, or `None` where `hash` is not a bcrypt hash.
pub uninterp spec fn bcrypt_verdict(password: Seq<char>, hash: Seq<char>) -> Option<bool>;

/// Calls `bcrypt::verify`. Trusted: the outcome depends on the password and
/// the hash alone, and is an error exactly where the hash cannot be read.
#[verifier::external_body]
pub(crate) fn bcrypt_verify(password: &str, hash: &str) -> (outcome: Result<bool, BcryptError>)
    ensures
        match outcome {
            Ok(matches) => bcrypt_verdict(password@, hash@) == Some(matches),
            Err(_) => bcrypt_verdict(password@, hash@) is None,
        },
{
    bcrypt::verify(password, hash)
}

/// How long every bcrypt hash is, in characters.
pub const HASH_LEN: usize = 60;

/// True of `0`..`9`.
pub open spec fn is_digit_char(c: char) -> bool {
    '0' <= c <= '9'
}

/// The work factor that a hash names: its fifth and sixth characters, read
/// as a decimal number; `None` where they are no digits.
pub open spec fn hash_cost(hash: Seq<char>) -> Option<u32> {
    if hash.len() >= 6 && is_digit_char(hash[4]) && is_digit_char(hash[5]) {
        Some((((hash[4] as u32) - 48) * 10 + ((hash[5] as u32) - 48)) as u32)
    } else {
        None
    }
}

/// Calls `bcrypt::hash`, which salts at random. Trusted: a hash that comes
/// back is one that `bcrypt::verify` matches with the password it was made
/// of; it is 60 characters long and names, in two digits behind the version
/// tag, the work factor it was made under; and none comes back for a work
/// factor outside 4..=31, which bcrypt tests before it hashes. Nothing is
/// claimed of when one comes back for a work factor within.
#[verifier::external_body]
pub(crate) fn bcrypt_hash(password: &str, work_factor: u32) -> (outcome: Result<
    String,
    BcryptError,
>)
    ensures
        outcome matches Ok(hash) ==> bcrypt_verdict(password@, hash@) == Some(true),
        outcome matches Ok(hash) ==> hash@.len() == HASH_LEN && hash_cost(hash@) == Some(
            work_factor,
        ),
        !(MIN_WORK_FACTOR <= work_factor <= MAX_WORK_FACTOR) ==> outcome is Err,
{
    bcrypt::hash(password, work_factor)
}

/// What a check reports for each finding of bcrypt.
pub open spec fn verdict_outcome(verdict: Option<bool>) -> Result<bool, AuthError> {
    match verdict {
        Some(matches) => Ok(matches),
        None => Err(AuthError::HashFormatError),
    }
}

/// Turns the outcome of a bcrypt check into this library's: a failure there
/// means that the stored hash could not be read.
pub fn check_outcome(outcome: Result<bool, BcryptError>) -> (checked: Result<bool, AuthError>)
    ensures
        checked == match outcome {
            Ok(matches) => Ok::<bool, AuthError>(matches),
            Err(_) => Err::<bool, AuthError>(AuthError::HashFormatError),
        },
{
    match outcome {
        Ok(matches) => Ok(matches),
        Err(_) => Err(AuthError::HashFormatError),
    }
}

/// Turns the outcome of a bcrypt hashing into this library's: a failure there
/// is a fault of the primitive.
pub fn hash_outcome(outcome: Result<String, BcryptError>) -> (hashed: Result<String, AuthError>)
    ensures
        match outcome {
            Ok(hash) => hashed == Ok::<String, AuthError>(hash),
            Err(_) => hashed == Err::<String, AuthError>(AuthError::HashingError),
        },
{
    match outcome {
        Ok(hash) => Ok(hash),
        Err(_) => Err(AuthError::HashingError),
    }
}

/// Checks a password against a stored hash. The comparison of the digests is
/// bcrypt's own and takes the same time wherever they differ.
pub fn verify_password(plaintext: &str, stored_hash: &str) -> (checked: Result<bool, AuthError>)
    ensures
        checked == verdict_outcome(bcrypt_verdict(plaintext@, stored_hash@)),
{
    check_outcome(bcrypt_verify(plaintext, stored_hash))
}

/// True when `hash` is a hash of `plaintext` made under `work_factor`: bcrypt
/// matches the two, and the hash has the length of a bcrypt hash and names
/// the work factor.
pub open spec fn is_hash_of(hash: Seq<char>, plaintext: Seq<char>, work_factor: u32) -> bool {
    &&& bcrypt_verdict(plaintext, hash) == Some(true)
    &&& hash.len() == HASH_LEN
    &&& hash_cost(hash) == Some(work_factor)
}

/// Hashes a new password under a fresh salt and the given work factor. The
/// hash that comes back matches the password and names the work factor; no
/// hash comes back where the primitive fails, and none for a work factor
/// outside `MIN_WORK_FACTOR..=MAX_WORK_FACTOR`.
pub fn hash_password(plaintext: &str, work_factor: u32) -> (hashed: Result<String, AuthError>)
    ensures
        match hashed {
            Ok(hash) => is_hash_of(hash@, plaintext@, work_factor),
            Err(e) => e == AuthError::HashingError,
        },
        !(MIN_WORK_FACTOR <= work_factor <= MAX_WORK_FACTOR) ==> hashed is Err,
{
    hash_outcome(bcrypt_hash(plaintext, work_factor))
}

/// A hash is not the password it was made of, unless the password has the
/// length of a hash itself.
pub proof fn lemma_hash_is_not_plaintext(hash: Seq<char>, plaintext: Seq<char>, work_factor: u32)
    requires
        is_hash_of(hash, plaintext, work_factor),
        plaintext.len() != HASH_LEN,
    ensures
        hash != plaintext,
{
}

} // verus!
