//! What is known of an accepted connection.

use vstd::prelude::*;

use crate::text::{chars_equal, to_chars};
use std::path::PathBuf;

verus! {

/// Contains information about an unixsocket connection. Part of [`ConnectionInfo`].
#[derive(Debug, Clone)]
pub struct UnixInfo {
    pub is_unnamed: bool,
    pub as_pathname: Option<PathBuf>,
}

impl UnixInfo {
    /// Whether the socket has no name.
    pub fn is_unnamed(&self) -> (ret: bool)
        ensures
            ret == self.is_unnamed,
    {
        self.is_unnamed
    }

    /// The path of the socket, if it has one.
    pub fn as_pathname(&self) -> (path: Option<&PathBuf>)
        ensures
            match path {
                Some(path) => self.as_pathname == Some(*path),
                None => self.as_pathname is None,
            },
    {
        match &self.as_pathname {
            Some(path) => Some(path),
            None => None,
        }
    }
}

/// The protocol which is spoken on a connection.
#[derive(Debug, Clone, Copy, PartialEq, Eq, Structural)]
pub enum Protocol {
    Http1,
    Http2,
}

/// Contains information on a specific connection.
#[derive(Debug, Clone)]
pub struct ConnectionInfo {
    /// The local unix socket info of the connection.
    pub unix_info: Option<UnixInfo>,
    /// The protocol agreed on over the TLS ALPN extension. Usefull for HTTP/2.
    pub alpn_protocol: Option<String>,
}

impl Default for ConnectionInfo {
    fn default() -> (info: Self)
        ensures
            info.unix_info is None,
            info.alpn_protocol is None,
    {
        ConnectionInfo { unix_info: None, alpn_protocol: None }
    }
}

impl ConnectionInfo {
    /// Was the HTTP/2 protocol negotiated over ALPN?
    pub fn is_h2(&self) -> (ret: bool)
        ensures
            ret == (self.alpn_protocol matches Some(alpn) && alpn@ == "h2"@),
    {
        match &self.alpn_protocol {
            Some(alpn) => chars_equal(
                to_chars(alpn.as_str()).as_slice(),
                to_chars("h2").as_slice(),
            ),
            None => false,
        }
    }

    /// The protocol to be spoken on a negotiated connection, about which there may be no
    /// information.
    pub fn protocol(info: Option<&ConnectionInfo>) -> (protocol: Protocol)
        ensures
            protocol == if info matches Some(info) && info.alpn_protocol matches Some(alpn)
                && alpn@ == "h2"@ {
                Protocol::Http2
            } else {
                Protocol::Http1
            },
    {
        match info {
            Some(info) => if info.is_h2() {
                Protocol::Http2
            } else {
                Protocol::Http1
            },
            None => Protocol::Http1,
        }
    }
}

} // verus!
