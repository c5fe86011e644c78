//! A verified HTTP/1.1 protocol layer: request parsing from raw bytes,
//! response serialization, and prefix routing, with the connection and
//! filesystem work left to the surrounding program.
pub mod bytes;
pub mod fields;
pub mod headers;
pub mod line_reader;
pub mod request;
pub mod response;
pub mod handler;
pub mod server;
pub mod roundtrip;
pub mod connection;
