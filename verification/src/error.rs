//! The error kinds that the engine surfaces to its callers.

use vstd::prelude::*;

verus! {

/// Error kinds produced by the engine and surfaced to callers.
#[derive(Debug, Clone, PartialEq, Eq)]
pub enum CCError {
    /// A violated internal expectation; the tick continues.
    InternalError { msg: String },
    /// A failure reported by an external collaborator.
    ExternalError { msg: String },
    /// A requested resource does not exist.
    NotFound { msg: String },
    /// Invalid user-supplied input, rejected at configuration time.
    UserError { msg: String },
}

impl CCError {
    /// The HTTP status code that this error kind maps to.
    pub fn status_code(&self) -> (code: u16)
        ensures
            code == self.spec_status_code(),
    {
        match self {
            CCError::InternalError { .. } => 500,
            CCError::ExternalError { .. } => 502,
            CCError::NotFound { .. } => 404,
            CCError::UserError { .. } => 400,
        }
    }

    pub open spec fn spec_status_code(&self) -> u16 {
        match self {
            CCError::InternalError { .. } => 500,
            CCError::ExternalError { .. } => 502,
            CCError::NotFound { .. } => 404,
            CCError::UserError { .. } => 400,
        }
    }

    pub open spec fn spec_msg(&self) -> Seq<char> {
        match self {
            CCError::InternalError { msg } => msg@,
            CCError::ExternalError { msg } => msg@,
            CCError::NotFound { msg } => msg@,
            CCError::UserError { msg } => msg@,
        }
    }

    pub open spec fn is_user_error(&self) -> bool {
        matches!(self, CCError::UserError { .. })
    }

    pub open spec fn is_not_found(&self) -> bool {
        matches!(self, CCError::NotFound { .. })
    }

    pub open spec fn is_internal_error(&self) -> bool {
        matches!(self, CCError::InternalError { .. })
    }

    /// The error's message, for callers that report it.
    pub fn message(&self) -> (m: &String)
        ensures
            m@ == self.spec_msg(),
    {
        match self {
            CCError::InternalError { msg } => msg,
            CCError::ExternalError { msg } => msg,
            CCError::NotFound { msg } => msg,
            CCError::UserError { msg } => msg,
        }
    }
}

/// Errors that have already been classified pass through unchanged; with no
/// opaque error wrapper in this crate, every error reaching the boundary is
/// already a `CCError`.
pub fn handle_error(err: CCError) -> (r: CCError)
    ensures
        r == err,
{
    err
}

} // verus!
