//! A verified core for a minimal concurrent web server: an immutable route
//! table, a request-line parser, a response builder producing the exact bytes
//! of two framing formats, and a worker-pool dispatch model.
//!
//! Reading a request off a socket, fetching resource bytes from disk and
//! writing the framed response back are left to the surrounding program; the
//! decisions between those steps live here, each with a contract.

pub mod handler;
pub mod pool;
pub mod request;
pub mod response;
pub mod routes;
pub mod wire;
