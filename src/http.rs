//! The request methods and the error kinds that the dispatch core knows.
use vstd::prelude::*;
use crate::text::concat;

verus! {

/// A request method. Comparison is exact: no verb stands for another.
#[derive(Clone, Copy, Debug, PartialEq, Eq, Structural)]
pub enum Method {
    Get,
    Post,
    Put,
    Delete,
    Head,
    Options,
    Patch,
    Connect,
    Trace,
    /// Any method outside the standard verbs.
    Other,
}

/// Status code for success.
pub const STATUS_OK: u16 = 200;
/// Status code for a redirect to another location.
pub const STATUS_FOUND: u16 = 302;
/// Status code for malformed input.
pub const STATUS_BAD_REQUEST: u16 = 400;
/// Status code for a request without a verified identity.
pub const STATUS_UNAUTHORIZED: u16 = 401;
/// Status code for an identity that lacks the required role.
pub const STATUS_FORBIDDEN: u16 = 403;
/// Status code for a request that no route takes.
pub const STATUS_NOT_FOUND: u16 = 404;
/// Status code for a client over its request budget.
pub const STATUS_TOO_MANY_REQUESTS: u16 = 429;
/// Status code for any other failure.
pub const STATUS_INTERNAL_SERVER_ERROR: u16 = 500;

/// A failure that surfaces from routing or from a handler.
#[derive(Clone, Debug)]
pub enum AppError {
    NotFound(String),
    Internal(String),
    BadRequest(String),
    Unauthorized(String),
    Forbidden(String),
    Custom(u16, String),
}

impl AppError {
    /// The status code of the error kind.
    pub open spec fn status_spec(&self) -> u16 {
        match self {
            AppError::NotFound(_) => STATUS_NOT_FOUND,
            AppError::Internal(_) => STATUS_INTERNAL_SERVER_ERROR,
            AppError::BadRequest(_) => STATUS_BAD_REQUEST,
            AppError::Unauthorized(_) => STATUS_UNAUTHORIZED,
            AppError::Forbidden(_) => STATUS_FORBIDDEN,
            AppError::Custom(s, _) => *s,
        }
    }

    /// The message that the error carries.
    pub open spec fn message_spec(&self) -> Seq<char> {
        match self {
            AppError::NotFound(m) => m@,
            AppError::Internal(m) => m@,
            AppError::BadRequest(m) => m@,
            AppError::Unauthorized(m) => m@,
            AppError::Forbidden(m) => m@,
            AppError::Custom(_, m) => m@,
        }
    }

    /// The heading that the text form puts before the message.
    pub open spec fn heading_spec(&self) -> Seq<char> {
        match self {
            AppError::NotFound(_) => "Not Found: "@,
            AppError::Internal(_) => "Internal Server Error: "@,
            AppError::BadRequest(_) => "Bad Request: "@,
            AppError::Unauthorized(_) => "Unauthorized: "@,
            AppError::Forbidden(_) => "Forbidden: "@,
            AppError::Custom(_, _) => "Custom Error: "@,
        }
    }

    /// The status code of the error kind.
    pub fn status(&self) -> (r: u16)
        ensures
            r == self.status_spec(),
    {
        match self {
            AppError::NotFound(_) => STATUS_NOT_FOUND,
            AppError::Internal(_) => STATUS_INTERNAL_SERVER_ERROR,
            AppError::BadRequest(_) => STATUS_BAD_REQUEST,
            AppError::Unauthorized(_) => STATUS_UNAUTHORIZED,
            AppError::Forbidden(_) => STATUS_FORBIDDEN,
            AppError::Custom(s, _) => *s,
        }
    }

    /// The message that the error carries.
    pub fn message(&self) -> (r: &String)
        ensures
            r@ == self.message_spec(),
    {
        match self {
            AppError::NotFound(m) => m,
            AppError::Internal(m) => m,
            AppError::BadRequest(m) => m,
            AppError::Unauthorized(m) => m,
            AppError::Forbidden(m) => m,
            AppError::Custom(_, m) => m,
        }
    }

    /// The error as text: its kind's heading, then its message.
    pub fn to_text(&self) -> (r: String)
        ensures
            r@ == self.heading_spec() + self.message_spec(),
    {
        let heading = match self {
            AppError::NotFound(_) => "Not Found: ",
            AppError::Internal(_) => "Internal Server Error: ",
            AppError::BadRequest(_) => "Bad Request: ",
            AppError::Unauthorized(_) => "Unauthorized: ",
            AppError::Forbidden(_) => "Forbidden: ",
            AppError::Custom(_, _) => "Custom Error: ",
        };
        concat(heading, self.message().as_str())
    }
}

} // verus!
