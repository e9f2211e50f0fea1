use vstd::prelude::*;

verus! {

/// The error kinds of the service. Domain conditions are always translated
/// into one of these; no raw crypto or store fault escapes unmapped.
#[derive(Debug, Clone)]
pub enum AppError {
    /// Bad credentials, or a missing, invalid or expired token. Surfaced to
    /// the end user as a generic "unauthenticated".
    Auth(String),
    /// Input rejected by the request-validation layer.
    Validation(String),
    /// An identifier with no matching record (only reachable after the
    /// caller has already been authenticated).
    NotFound(String),
    /// A username that is already taken.
    Conflict(String),
    /// An unrecoverable cryptographic-library or store fault.
    Internal(String),
}

impl AppError {
    /// The message carried by this error, whichever kind it is.
    pub open spec fn spec_message(self) -> Seq<char> {
        match self {
            AppError::Auth(m) => m@,
            AppError::Validation(m) => m@,
            AppError::NotFound(m) => m@,
            AppError::Conflict(m) => m@,
            AppError::Internal(m) => m@,
        }
    }

    /// The human-readable message carried by this error.
    pub fn message(&self) -> (r: String)
        ensures
            r@ == self.spec_message(),
    {
        match self {
            AppError::Auth(m) => m.clone(),
            AppError::Validation(m) => m.clone(),
            AppError::NotFound(m) => m.clone(),
            AppError::Conflict(m) => m.clone(),
            AppError::Internal(m) => m.clone(),
        }
    }
}

pub type AppResult<T> = Result<T, AppError>;

} // verus!
