//! The HTTP/2 protocol.

pub mod error;
pub mod frame;
pub mod settings;
pub mod hpack;
pub mod stream;
pub mod headers;
pub mod reader;
pub mod window;
pub mod connection;
pub mod laws;
