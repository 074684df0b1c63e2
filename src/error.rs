use vstd::prelude::*;

verus! {

/// The error kinds that the library reports.
#[derive(Debug, Clone)]
pub enum AppError {
    /// A compose document is malformed or unsupported.
    Validation(String),
    /// A stack, service or token match was not found for the caller.
    NotFound(String),
    /// The caller may not act on the target.
    Forbidden(String),
    /// The request cannot be served in the current state.
    BadRequest(String),
    /// The container runtime reported a failure.
    ContainerRuntime(String),
    /// Encoding, decoding or another internal step failed.
    Internal(String),
}

impl AppError {
    /// The message carried by the error.
    pub fn message(&self) -> (r: &String)
        ensures
            r == match self {
                AppError::Validation(m) => m,
                AppError::NotFound(m) => m,
                AppError::Forbidden(m) => m,
                AppError::BadRequest(m) => m,
                AppError::ContainerRuntime(m) => m,
                AppError::Internal(m) => m,
            },
    {
        match self {
            AppError::Validation(m) => m,
            AppError::NotFound(m) => m,
            AppError::Forbidden(m) => m,
            AppError::BadRequest(m) => m,
            AppError::ContainerRuntime(m) => m,
            AppError::Internal(m) => m,
        }
    }
}

} // verus!
