//! A small, verified HTTP/1.1 request-handling library: wire parsing,
//! exact-path routing, per-client sessions, and response formatting.
//!
//! The crate contains no I/O. A caller reads the raw bytes of a request
//! from its connection, hands them to [`connection::RequestHandler`], and
//! writes the returned response bytes back.

pub mod connection;
pub mod dict;
pub mod response;
pub mod routing;
pub mod state;
pub mod text;
