//! The verified core of an HTTP/1.1 and HTTP/2 server.
//!
//! The crate holds everything a server decides: how bytes are split into requests and frames,
//! how bodies are framed, how flow control windows are handed out and which answer is owed to
//! which input. It performs no input or output of its own. Connections are state machines which
//! take what was read and return what has to be written.

pub mod body;
pub mod buffer;
pub mod bytes;
pub mod chunked;
pub mod config;
pub mod connection;
pub mod error;
pub mod foreign;
pub mod http2;
pub mod listener;
pub mod message;
pub mod number;
pub mod parse;
pub mod response;
pub mod server;
pub mod text;
pub mod util;
