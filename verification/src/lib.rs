//! A minimal HTTP/1.1 server transport core.
//!
//! The crate owns the request/response lifecycle of one accepted
//! connection: request-line and header parsing, an incrementally
//! consumable request body with mandatory draining, response building
//! and wire serialization (fixed-length or chunked framing), and the
//! keep-alive decisions of the per-connection loop.  All protocol
//! logic is verified; the asynchronous socket plumbing that drives it
//! lives outside this crate.

pub mod body;
pub mod chunked;
pub mod connection;
pub mod extensions;
pub mod headers;
pub mod request;
pub mod response;
pub mod status;
pub mod text;

pub use body::BodyReader;
pub use connection::Connection;
pub use extensions::Extensions;
pub use headers::Headers;
pub use request::Request;
pub use request::RequestError;
pub use request::RequestParser;
pub use response::Body;
pub use response::Response;
pub use response::ResponseBuilder;
pub use response::ResponseError;
pub use status::StatusCode;
