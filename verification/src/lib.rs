//! The client side of HTTP: what is sent for a request, and how the response is read.
//!
//! Nothing here opens a connection. Where something has to be read, a function takes what was
//! read last and says what is to be read next, so that the caller can read as it likes. The
//! modules under [`stream`] state and prove what comes out when that is done until the end.

pub mod connection;
pub mod error;
pub mod line;
pub mod number;
pub mod outside;
pub mod response;
pub mod stream;
pub mod text;

pub use connection::http_connection::HTTPConnection;
pub use connection::{Connection, Request};
pub use error::Error;
pub use response::lazy::ResponseLazy;
pub use response::Response;
