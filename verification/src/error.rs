//! Unified application error type and its mapping to HTTP status codes.

use vstd::prelude::*;

verus! {

/// The error taxonomy of the service. A database failure carries the
/// database driver's message as plain text.
pub enum AppError {
    NotFound(String),
    Unauthorized(String),
    BadRequest(String),
    Forbidden(String),
    Internal(String),
    Sqlx(String),
}

impl AppError {
    /// The HTTP status code this error maps to.
    pub fn status_code(&self) -> (code: u16)
        ensures
            code == match self {
                AppError::NotFound(_) => 404u16,
                AppError::Unauthorized(_) => 401u16,
                AppError::BadRequest(_) => 400u16,
                AppError::Forbidden(_) => 403u16,
                AppError::Internal(_) => 500u16,
                AppError::Sqlx(_) => 500u16,
            },
    {
        match self {
            AppError::NotFound(_) => 404u16,
            AppError::Unauthorized(_) => 401u16,
            AppError::BadRequest(_) => 400u16,
            AppError::Forbidden(_) => 403u16,
            AppError::Internal(_) => 500,
            AppError::Sqlx(_) => 500,
        }
    }

    /// The message body shown to the client. Database errors are not
    /// echoed to the client; a fixed text stands in for them.
    pub fn client_message(&self) -> (msg: String)
        ensures
            msg@ == match self {
                AppError::NotFound(m) => m@,
                AppError::Unauthorized(m) => m@,
                AppError::BadRequest(m) => m@,
                AppError::Forbidden(m) => m@,
                AppError::Internal(m) => m@,
                AppError::Sqlx(_) => "Internal database error"@,
            },
    {
        match self {
            AppError::NotFound(m) => m.clone(),
            AppError::Unauthorized(m) => m.clone(),
            AppError::BadRequest(m) => m.clone(),
            AppError::Forbidden(m) => m.clone(),
            AppError::Internal(m) => m.clone(),
            AppError::Sqlx(_) => "Internal database error".to_owned(),
        }
    }
}

} // verus!
