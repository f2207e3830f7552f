//! The library's error type.

use vstd::prelude::*;

verus! {

/// What can go wrong in a client operation. Transport, file and JSON
/// failures carry the message of the underlying error.
pub enum BftpError {
    /// The service answered with a non-zero error number.
    Api { errno: i32, errmsg: Option<String> },
    /// The HTTP request failed.
    Http(String),
    /// A local file operation failed.
    Io(String),
    /// A response could not be decoded.
    Json(String),
    /// Authorization failed.
    Auth(String),
    /// A remote file does not exist.
    FileNotFound(String),
    /// Anything else.
    Other(String),
}

} // verus!
