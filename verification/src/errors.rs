//! Error taxonomy of the credential core.

use vstd::prelude::*;

verus! {

/// Why an operation of the auth core failed.
///
/// `UsernameTaken` and `InvalidCredentials` are business-rule failures a
/// caller renders to the user; `StorageError` and `HashingError` are
/// internal failures of this request; `ValidationError` rejects empty
/// input at the boundary.
#[derive(Clone, Copy, Debug, PartialEq, Eq, Structural)]
pub enum AuthError {
    ValidationError,
    UsernameTaken,
    InvalidCredentials,
    StorageError,
    HashingError,
}

impl AuthError {
    /// A short stable name for the error, for logs and responses.
    pub fn describe(&self) -> (r: &'static str)
        ensures
            r@.len() > 0,
            (r@ == match self {
                AuthError::ValidationError => "invalid input"@,
                AuthError::UsernameTaken => "username already exists"@,
                AuthError::InvalidCredentials => "invalid username or password"@,
                AuthError::StorageError => "user store unreadable"@,
                AuthError::HashingError => "password hashing failed"@,
            }),
    {
        proof {
            reveal_strlit("invalid input");
            reveal_strlit("username already exists");
            reveal_strlit("invalid username or password");
            reveal_strlit("user store unreadable");
            reveal_strlit("password hashing failed");
        }
        match self {
            AuthError::ValidationError => "invalid input",
            AuthError::UsernameTaken => "username already exists",
            AuthError::InvalidCredentials => "invalid username or password",
            AuthError::StorageError => "user store unreadable",
            AuthError::HashingError => "password hashing failed",
        }
    }
}

} // verus!
