//! What can go wrong with a response.

use serde_json::Error as JsonError;
use vstd::prelude::*;

verus! {

/// What can go wrong with a response.
#[derive(Debug)]
pub enum Error {
    /// Reading from the connection failed.
    IoError(std::io::Error),
    /// The body is not UTF-8.
    InvalidUtf8InBody(std::str::Utf8Error),
    /// A line of the response is not UTF-8.
    InvalidUtf8InResponse,
    /// The body is not the JSON that was asked for.
    SerdeJsonError(JsonError),
    /// The line before a chunk is not a length.
    MalformedChunkLength,
    /// The value of the `Content-Length` header is not a length.
    MalformedContentLength,
    /// Anything else, described.
    Other(&'static str),
}

} // verus!
