//! What the session engine reports to its caller.

use crate::token::TokenError;
use vstd::prelude::*;

verus! {

/// Why a request was not served.
#[derive(Clone, Copy, Debug, PartialEq, Eq, Structural)]
pub enum AuthError {
    /// The credentials or the token presented do not hold. Nothing tells an
    /// unknown identity from a wrong password, nor one defect of a token
    /// from another.
    AuthFailed,
    /// The stored hash is not a bcrypt hash: a fault of the storage.
    HashFormatError,
    /// The hashing primitive failed: a fault of the server.
    HashingError,
    /// The storage could not be asked: a fault of the server.
    StorageUnavailable,
}

impl AuthError {
    /// True of the one outcome that the client caused; the others are
    /// faults of the server.
    pub open spec fn is_client_fault(self) -> bool {
        self == AuthError::AuthFailed
    }

    /// Whether the client caused this outcome.
    pub fn client_fault(self) -> (yes: bool)
        ensures
            yes == self.is_client_fault(),
    {
        match self {
            AuthError::AuthFailed => true,
            _ => false,
        }
    }

    /// What a caller is told of a token that was not accepted: the same,
    /// whatever was wrong with it.
    pub fn from_token_error(e: TokenError) -> (outcome: AuthError)
        ensures
            outcome == AuthError::AuthFailed,
    {
        AuthError::AuthFailed
    }
}

} // verus!
