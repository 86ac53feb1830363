//! The API's error taxonomy and its mapping to HTTP responses: which
//! status code each error carries and what body it exposes. A store
//! error never leaks detail to the client; the detail stays with the
//! caller for logging.

use vstd::prelude::*;

verus! {

/// What went wrong while serving a request. A store error carries its
/// detail for the server's log only.
#[derive(Debug)]
pub enum ApiError {
    DatabaseError(String),
    NotFound(String),
    BadRequest(String),
    InternalError(String),
}

/// The error body this taxonomy renders to: a status line and a message.
#[derive(Debug)]
pub struct ErrorResponse {
    pub status: String,
    pub message: String,
}

impl ApiError {
    /// The status code and body the error answers with: store errors
    /// become an opaque 500, the rest expose their message under their
    /// own code.
    pub fn into_response(self) -> (r: (u16, ErrorResponse))
        ensures
            match self {
                ApiError::DatabaseError(detail) => r.0 == 500 && r.1.status@
                    == "500 Internal Server Error"@ && r.1.message@ == "Internal server error"@,
                ApiError::NotFound(m) => r.0 == 404 && r.1.status@ == "404 Not Found"@
                    && r.1.message@ == m@,
                ApiError::BadRequest(m) => r.0 == 400 && r.1.status@ == "400 Bad Request"@
                    && r.1.message@ == m@,
                ApiError::InternalError(m) => r.0 == 500 && r.1.status@
                    == "500 Internal Server Error"@ && r.1.message@ == m@,
            },
    {
        match self {
            ApiError::DatabaseError(_) => (
                500,
                ErrorResponse {
                    status: String::from_str("500 Internal Server Error"),
                    message: String::from_str("Internal server error"),
                },
            ),
            ApiError::NotFound(m) => (
                404,
                ErrorResponse { status: String::from_str("404 Not Found"), message: m },
            ),
            ApiError::BadRequest(m) => (
                400,
                ErrorResponse { status: String::from_str("400 Bad Request"), message: m },
            ),
            ApiError::InternalError(m) => (
                500,
                ErrorResponse { status: String::from_str("500 Internal Server Error"), message: m },
            ),
        }
    }
}

} // verus!
