//! The request-handling core of a small HTTP/1.1 server.
//!
//! A connection reads one request into a fixed buffer. The core takes the
//! buffer, asks the response cache by the fingerprint of its bytes, and on a
//! miss parses the request, resolves its route, checks its method, runs the
//! handler and renders the response, which it stores in the cache. A sweeper
//! evicts entries that are older than the retention window.
//!
//! Sockets, threads and locks are the caller's part: the core works on
//! bytes and plain values, and every function of it is specified over a
//! mathematical model of its data.

pub mod cache;
pub mod connection;
pub mod digest;
pub mod fields;
pub mod json;
pub mod laws;
pub mod request;
pub mod response;
pub mod route;
pub mod status;
pub mod text;
