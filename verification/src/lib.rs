//! Core of a minimal HTTP/1.x static-content server.
//!
//! The library holds the protocol logic: framing a request head out of a
//! byte stream, parsing the request line and headers, resolving a request
//! path to a routing outcome, and assembling and draining a framed
//! response. Sockets, files, threads and timing live outside the library;
//! they hand bytes and filesystem facts in and take bytes back.

pub mod ascii;
pub mod config;
pub mod errors;
pub mod framer;
pub mod headers;
pub mod mimetype;
pub mod request;
pub mod response;
pub mod router;
pub mod status;
pub mod tables;
pub mod utils;
