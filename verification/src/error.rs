//! The errors a request can end in, and how each is reported.

use vstd::prelude::*;

verus! {

/// An error, with the message that is reported for it.
#[derive(Debug, PartialEq, Eq)]
pub enum AppError {
    /// The request was malformed.
    BadRequest(String),
    /// The presented secret was not the configured one.
    Unauthorized(String),
    /// Reserved.
    Forbidden(String),
    /// Reserved.
    NotFound(String),
    /// The submission ranks below the team's current best.
    Conflict(String),
    /// Anything that went wrong inside the service, by its description.
    Server(String),
}

/// The body that reports an error: the message, and the version of the
/// service that produced it.
#[derive(Debug, PartialEq, Eq)]
pub struct AppErrorResponse {
    pub msg: String,
    pub ver: &'static str,
}

impl AppError {
    /// The HTTP status code that reports this error.
    pub open spec fn status_code(self) -> u16 {
        match self {
            AppError::BadRequest(_) => 400,
            AppError::Unauthorized(_) => 401,
            AppError::Forbidden(_) => 403,
            AppError::NotFound(_) => 404,
            AppError::Conflict(_) => 409,
            AppError::Server(_) => 500,
        }
    }

    /// The message that this error carries.
    pub open spec fn message(self) -> Seq<char> {
        match self {
            AppError::BadRequest(msg) => msg@,
            AppError::Unauthorized(msg) => msg@,
            AppError::Forbidden(msg) => msg@,
            AppError::NotFound(msg) => msg@,
            AppError::Conflict(msg) => msg@,
            AppError::Server(msg) => msg@,
        }
    }

    /// The HTTP status code that reports this error.
    pub fn status(&self) -> (code: u16)
        ensures
            code == self.status_code(),
    {
        match self {
            AppError::BadRequest(_) => 400,
            AppError::Unauthorized(_) => 401,
            AppError::Forbidden(_) => 403,
            AppError::NotFound(_) => 404,
            AppError::Conflict(_) => 409,
            AppError::Server(_) => 500,
        }
    }

    /// The status code and the body that report this error. `ver` is the
    /// version of the service, which the body repeats.
    pub fn into_response(self, ver: &'static str) -> (response: (u16, AppErrorResponse))
        ensures
            response.0 == self.status_code(),
            response.1.msg@ == self.message(),
            response.1.ver == ver,
    {
        let (status, message): (u16, String) = match self {
            AppError::Server(description) => (500, description),
            AppError::BadRequest(msg) => (400, msg),
            AppError::Forbidden(msg) => (403, msg),
            AppError::NotFound(msg) => (404, msg),
            AppError::Conflict(msg) => (409, msg),
            AppError::Unauthorized(msg) => (401, msg),
        };
        (status, AppErrorResponse { msg: message, ver })
    }
}

} // verus!
