//! The error codes of HTTP/2 and what they affect.

use vstd::prelude::*;

use crate::error::Error;

verus! {

/// A result whose error is a [`H2Error`].
pub type H2Result<T> = Result<T, H2Error>;

/// A violation of the protocol together with the scope that it affects.
#[derive(Debug, Clone, Copy, PartialEq, Eq, Structural)]
pub enum H2Error {
    /// The error is related only to the stream where it occured.
    Stream(ErrorCode),
    /// The error affects the entire connection.
    Connection(ErrorCode),
}

impl H2Error {
    /// The error code, whatever it affects.
    pub fn into_inner(self) -> (code: ErrorCode)
        ensures
            code == (match self {
                H2Error::Stream(code) => code,
                H2Error::Connection(code) => code,
            }),
    {
        match self {
            H2Error::Stream(code) => code,
            H2Error::Connection(code) => code,
        }
    }
}

impl From<Error> for H2Error {
    fn from(_err: Error) -> (ret: Self) {
        H2Error::Connection(ErrorCode::ProtocolError)
    }
}

impl vstd::std_specs::convert::FromSpecImpl<Error> for H2Error {
    open spec fn obeys_from_spec() -> bool {
        true
    }

    open spec fn from_spec(_err: Error) -> Self {
        H2Error::Connection(ErrorCode::ProtocolError)
    }
}

/// The error codes which travel in RST_STREAM and GOAWAY frames.
#[derive(Debug, Clone, Copy, PartialEq, Eq, Structural)]
pub enum ErrorCode {
    /// The associated condition is not a result of an error. For example, a GOAWAY might contain
    /// this code to indicate graceful shutdown of a connection.
    NoError,
    /// The endpoint detected an unspecific protocol error. This error is for use when a more
    /// specific error code is not available.
    ProtocolError,
    /// The endpoint encountered an unexpected internal error.
    InternalError,
    /// The endpoint detected that its peer violated the flow-control protocol.
    FlowControlError,
    /// The endpoint sent a SETTINGS frame but did not receive a response in a timely manner.
    SettingsTimeout,
    /// The endpoint received a frame after a stream was half-closed.
    StreamClosed,
    /// The endpoint received a frame with an invalid size.
    FrameSizeError,
    /// The endpoint refused the stream prior to performing any application processing.
    RefusedStream,
    /// Used by the endpoint to indicate that the stream is no longer needed.
    Cancel,
    /// The endpoint is unable to maintain the header compression context for the connection.
    CompresssionError,
    /// The connection established in response to a CONNECT request was reset or abnormally closed.
    ConnectError,
    /// The endpoint detected that its peer is exhibiting a behavior that might be generating excessive load.
    EnhanceYourCalm,
    /// The underlying transport has properties that do not meet minimum security requirements.
    InadequateSecurity,
    /// The endpoint requires that HTTP/1.1 be used instead of HTTP/2.
    Http11Required,
}

impl ErrorCode {
    /// The number by which the code is known on the wire.
    pub open spec fn number(self) -> u32 {
        match self {
            ErrorCode::NoError => 0,
            ErrorCode::ProtocolError => 1,
            ErrorCode::InternalError => 2,
            ErrorCode::FlowControlError => 3,
            ErrorCode::SettingsTimeout => 4,
            ErrorCode::StreamClosed => 5,
            ErrorCode::FrameSizeError => 6,
            ErrorCode::RefusedStream => 7,
            ErrorCode::Cancel => 8,
            ErrorCode::CompresssionError => 9,
            ErrorCode::ConnectError => 10,
            ErrorCode::EnhanceYourCalm => 11,
            ErrorCode::InadequateSecurity => 12,
            ErrorCode::Http11Required => 13,
        }
    }

    /// Whether `code` is what the number `n` stands for.
    pub open spec fn numbered(code: Option<ErrorCode>, n: u32) -> bool {
        match code {
            Some(code) => code.number() == n,
            None => n > 13,
        }
    }

    /// Converts the code into its number.
    pub fn as_u32(self) -> (n: u32)
        ensures
            n == self.number(),
    {
        match self {
            ErrorCode::NoError => 0,
            ErrorCode::ProtocolError => 1,
            ErrorCode::InternalError => 2,
            ErrorCode::FlowControlError => 3,
            ErrorCode::SettingsTimeout => 4,
            ErrorCode::StreamClosed => 5,
            ErrorCode::FrameSizeError => 6,
            ErrorCode::RefusedStream => 7,
            ErrorCode::Cancel => 8,
            ErrorCode::CompresssionError => 9,
            ErrorCode::ConnectError => 10,
            ErrorCode::EnhanceYourCalm => 11,
            ErrorCode::InadequateSecurity => 12,
            ErrorCode::Http11Required => 13,
        }
    }

    /// Looks up the code with the number `n`.
    pub fn from_u32(n: u32) -> (code: Option<Self>)
        ensures
            Self::numbered(code, n),
    {
        match n {
            0 => Some(ErrorCode::NoError),
            1 => Some(ErrorCode::ProtocolError),
            2 => Some(ErrorCode::InternalError),
            3 => Some(ErrorCode::FlowControlError),
            4 => Some(ErrorCode::SettingsTimeout),
            5 => Some(ErrorCode::StreamClosed),
            6 => Some(ErrorCode::FrameSizeError),
            7 => Some(ErrorCode::RefusedStream),
            8 => Some(ErrorCode::Cancel),
            9 => Some(ErrorCode::CompresssionError),
            10 => Some(ErrorCode::ConnectError),
            11 => Some(ErrorCode::EnhanceYourCalm),
            12 => Some(ErrorCode::InadequateSecurity),
            13 => Some(ErrorCode::Http11Required),
            _ => None,
        }
    }
}

/// A code is determined by its number: two values which stand for the same number are equal.
pub proof fn law_error_code_numbers_unique(a: Option<ErrorCode>, b: Option<ErrorCode>, n: u32)
    requires
        ErrorCode::numbered(a, n),
        ErrorCode::numbered(b, n),
    ensures
        a == b,
{
}

/// Each code has its own number on the wire, and no other number stands for a code.
pub proof fn law_error_codes_have_their_numbers(code: ErrorCode, n: u32)
    ensures
        code is NoError <==> code.number() == 0,
        code is ProtocolError <==> code.number() == 1,
        code is InternalError <==> code.number() == 2,
        code is FlowControlError <==> code.number() == 3,
        code is SettingsTimeout <==> code.number() == 4,
        code is StreamClosed <==> code.number() == 5,
        code is FrameSizeError <==> code.number() == 6,
        code is RefusedStream <==> code.number() == 7,
        code is Cancel <==> code.number() == 8,
        code is CompresssionError <==> code.number() == 9,
        code is ConnectError <==> code.number() == 10,
        code is EnhanceYourCalm <==> code.number() == 11,
        code is InadequateSecurity <==> code.number() == 12,
        code is Http11Required <==> code.number() == 13,
        ErrorCode::numbered(None, n) <==> n >= 14,
        ErrorCode::numbered(Some(code), n) <==> code.number() == n,
{
}

} // verus!
