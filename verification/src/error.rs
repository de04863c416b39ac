//! The error every request can end with.
use vstd::prelude::*;

verus! {

/// Every way a request can fail.
pub enum AppError {
    /// The request is malformed or breaks a rule (HTTP 400).
    BadRequest(String),
    /// No valid bearer token was presented (HTTP 401).
    Unauthorized,
    /// The token is valid but lacks the right to do this (HTTP 403).
    Forbidden,
    /// The addressed resource does not exist (HTTP 404).
    NotFound(String),
    /// The database failed (HTTP 500).
    Database(String),
}

/// The HTTP status that answers an error.
pub open spec fn spec_status_code(e: AppError) -> u16 {
    match e {
        AppError::BadRequest(_) => 400,
        AppError::Unauthorized => 401,
        AppError::Forbidden => 403,
        AppError::NotFound(_) => 404,
        AppError::Database(_) => 500,
    }
}

/// The text the client is told.  Database details stay on the server.
pub open spec fn spec_message(e: AppError) -> Seq<char> {
    match e {
        AppError::BadRequest(m) => m@,
        AppError::Unauthorized => "Unauthorized"@,
        AppError::Forbidden => "Forbidden"@,
        AppError::NotFound(m) => m@,
        AppError::Database(_) => "Internal server error"@,
    }
}

impl AppError {
    /// The text of the error for the client.
    pub fn message(&self) -> (m: String)
        ensures
            m@ == spec_message(*self),
    {
        match self {
            AppError::BadRequest(m) => m.clone(),
            AppError::Unauthorized => String::from_str("Unauthorized"),
            AppError::Forbidden => String::from_str("Forbidden"),
            AppError::NotFound(m) => m.clone(),
            AppError::Database(_) => String::from_str("Internal server error"),
        }
    }

    /// The HTTP status code of this error.
    pub fn status_code(&self) -> (code: u16)
        ensures
            code == spec_status_code(*self),
    {
        match self {
            AppError::BadRequest(_) => 400,
            AppError::Unauthorized => 401,
            AppError::Forbidden => 403,
            AppError::NotFound(_) => 404,
            AppError::Database(_) => 500,
        }
    }
}

} // verus!
