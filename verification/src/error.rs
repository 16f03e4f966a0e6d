use crate::response::Status;
use vstd::prelude::*;

verus! {

/// Why a request could not be served.
#[derive(Clone, Copy, Debug, PartialEq, Eq, Structural)]
pub enum ErrorKind {
    /// The bytes of the request are not valid UTF-8 text.
    Encoding,
    /// The request is too long, or lacks a method, a path or the empty line
    /// that ends its head.
    MalformedRequest,
    /// No route matches the method and path.
    NotFound,
    /// The file that was asked for does not exist.
    FileNotFound,
    /// Reading or writing a file, or compressing a body, failed.
    Io,
}

/// The status of the response that reports an error: 500 for a failure of the
/// server's own work, 404 for everything else.
pub open spec fn error_status(kind: ErrorKind) -> Status {
    match kind {
        ErrorKind::Io => Status::InternalServerError,
        _ => Status::NotFound,
    }
}

impl ErrorKind {
    /// The status of the response that reports this error.
    pub fn status(&self) -> (status: Status)
        ensures
            status == error_status(*self),
    {
        match self {
            ErrorKind::Io => Status::InternalServerError,
            _ => Status::NotFound,
        }
    }
}

} // verus!
