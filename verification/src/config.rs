//! The configuration of a server.

use vstd::prelude::*;

use crate::http2::settings::Settings;

verus! {

/// A duration or a point in time in nanoseconds.
pub type Nanos = u128;

/// One second.
pub const SECOND: u128 = 1_000_000_000;

/// One millisecond.
pub const MILLISECOND: u128 = 1_000_000;

/// The longest duration. It is long enough that the sum of two durations is still a number.
pub const DURATION_MAX: u128 = 18_446_744_073_709_551_615_999_999_999;

/// The main configuration for a server.
#[derive(Debug, Clone, Copy)]
pub struct Config {
    /// The size of the buffer where the request header gets stored.
    /// This does also implicitly define the maximum total request header size.
    ///
    /// __Default__: 4096
    pub request_header_buf_size: usize,
    /// The maximum size of a request header line.
    ///
    /// __Default__: 128
    pub request_header_line_max: usize,
    /// The size of the buffer where the request body gets stored.
    /// This buffer is only used as an intermediate and does not limit the total body size.
    ///
    /// __Default__: 4096
    pub request_body_buf_size: usize,
    /// The size of the buffer where a requests chunked bodys chunk header gets stored.
    /// This buffer is only used as an intermediate to store and parse a single chunks header.
    /// It does neither limit the size of a single chunk, nor does it limit how much can be read
    /// at once. The latter gets limited by the `request_body_buf_size` value.
    ///
    /// __Default__: 512
    pub request_chunked_header_buf_size: usize,
    /// The maximum number of new connections accepted per second per listener.
    ///
    /// __Default__: 128
    pub connections_per_second: u64,
    /// The maximum duration to wait between the opening of a socket and the finishing of the
    /// (TLS) negotiation.
    ///
    /// __Default__: 10 seconds
    pub negotiation_timeout: Nanos,
    /// The maximum duration to wait between the finished establishment of a connection (including
    /// negotiation) and the receiving of the beginning of the first request.
    ///
    /// __Default__: 5 seconds
    pub first_request_timeout: Nanos,
    /// The maximum duration to wait between the end of one request (including sending back the
    /// response) and receiving the start of another request.
    ///
    /// __Default__: 60 seconds
    pub idle_timeout: Nanos,
    /// The maximum duration to wait between the arrival of the first request header byte(s) and the
    /// arrival of the full request header.
    ///
    /// __Default__: 5 seconds
    pub request_header_timeout: Nanos,
    /// The maximum duration to wait for an intermediate "Continue" response line to successfully flush.
    ///
    /// __Default__: 5 seconds
    pub continue_write_timeout: Nanos,
    /// The maximum duration to wait for a single chunk of a request body data to arive.
    ///
    /// __Default__: 5 seconds
    pub request_body_read_chunk_timeout: Nanos,
    /// The maximum amount of time to wait for the response headers to successfully flush.
    ///
    /// __Default__: 5 seconds
    pub headers_write_timeout: Nanos,
    /// The maximum amount of time to wait for the response body to successfully flush.
    ///
    /// __Default__: 300 seconds
    pub body_write_timeout: Nanos,
    /// The maximum amount of time to wait for the request handler to complete.
    /// Can be used as a safety procedure in case you can not guarantee that your handler will
    /// eventually complete.
    /// Note that this time does only cover the time preparing the response, but NOT sending it.
    ///
    /// __Default__: 60 seconds
    pub handler_timeout: Nanos,
    /// The maximum time to wait for all connections to gracefully close by first finishing their
    /// current request/response cicle before performing a forced exit.
    ///
    /// __Default__: 60 seconds
    pub gracefull_shutdown_timeout: Nanos,
    /// The size of the buffer used for sending any data back to the client.
    ///
    /// __Default__: 4096
    pub response_buf_size: usize,
    /// The size of the buffer to use for the response body. The body can be much bigger than this
    /// value.
    ///
    /// __Default__: 4096
    pub response_body_buf_size: usize,
    /// The size of the buffer for a chunked response body. Will correspond to the size of each chunk,
    /// excluding the last one.
    /// Note that the chunks will have 2 bytes less, since the buffer also needs to save the succeeding
    /// CRLF after each chunk body.
    ///
    /// __Default__: 65536
    pub response_chunked_buf_size: usize,
    /// The HTTP/2 specific settings, corresponding to the ones in the RFC.
    pub h2_settings: Settings,
    /// The interval at which the server will check if any relevant timeout has been reached.
    ///
    /// __Default__: 1 second
    pub h2_timeouts_check_interval: Nanos,
    /// For HTTP/2 connections, the interval at wich a connections write buffer gets flushed.
    /// A flush will happen more often if much data gets written, and a flush will be skipped if
    /// there is no data buffered to be send.
    ///
    /// __Default__: 10 milliseconds (0.01 second)
    pub h2_writer_flush_interval: Nanos,
    /// The time to wait for the acknowledgement of a send HTTP/2 settings frame.
    /// After this timeout the connection gets closed with connection error of type settings timeout.
    ///
    /// The server will only check at the interval specified in `h2_timeouts_check_interval` if
    /// this time has passed.
    ///
    /// __Default__: 5 seconds
    pub h2_settings_timeout: Nanos,
    /// The time after the last frame got received at a HTTP/2 connection at which the next
    /// HTTP/2 ping should be send.
    ///
    /// The server will only check at the interval specified in `h2_timeouts_check_interval` if
    /// this time has passed.
    ///
    /// __Default__: 60 seconds
    pub h2_ping_interval: Nanos,
    /// The time to wait for the acknowledgement of a send HTTP/2 ping frame.
    /// After this timeout the connection gets closed with connection error of type protocol error.
    ///
    /// The server will only check at the interval specified in `h2_timeouts_check_interval` if
    /// this time has passed.
    ///
    /// __Default__: 5 seconds
    pub h2_ping_timeout: Nanos,
    /// The payload of the HTTP/2 ping frame. Does not have any significant security value.
    ///
    /// __Default__: 42
    pub h2_ping_payload: u64,
    /// The initial global window size. The server will send a corresponding window update frame
    /// at the beginning of an HTTP/2 connection to inform the peer if this value is higher then
    /// the default of 65535 as mandated by the RFC.
    ///
    /// The minium value for this is the default 65535, and the maximum is [`i32::MAX`].
    ///
    /// __Default__: 65535
    pub h2_initial_global_window_size: i32,
}

impl Default for Config {
    fn default() -> (config: Self)
        ensures
            config.request_header_buf_size == 4096,
            config.request_header_line_max == 128,
            config.request_body_buf_size == 4096,
            config.request_chunked_header_buf_size == 512,
            config.connections_per_second == 128,
            config.negotiation_timeout == 10 * SECOND,
            config.first_request_timeout == 5 * SECOND,
            config.idle_timeout == 60 * SECOND,
            config.request_header_timeout == 5 * SECOND,
            config.continue_write_timeout == 5 * SECOND,
            config.request_body_read_chunk_timeout == 5 * SECOND,
            config.headers_write_timeout == 5 * SECOND,
            config.body_write_timeout == 300 * SECOND,
            config.handler_timeout == 60 * SECOND,
            config.gracefull_shutdown_timeout == 60 * SECOND,
            config.response_buf_size == 4096,
            config.response_body_buf_size == 4096,
            config.response_chunked_buf_size == 65536,
            config.h2_settings == (Settings {
                header_table_size: 4096,
                enable_push: true,
                max_concurrent_streams: None,
                initial_window_size: 65_535,
                max_frame_size: 16_384,
                max_header_list_size: None,
            }),
            config.h2_timeouts_check_interval == SECOND,
            config.h2_writer_flush_interval == 10 * MILLISECOND,
            config.h2_settings_timeout == 5 * SECOND,
            config.h2_ping_interval == 60 * SECOND,
            config.h2_ping_timeout == 5 * SECOND,
            config.h2_ping_payload == 42,
            config.h2_initial_global_window_size == 65535,
    {
        Config {
            request_header_buf_size: 4096,
            request_header_line_max: 128,
            request_body_buf_size: 4096,
            request_chunked_header_buf_size: 512,
            connections_per_second: 128,
            negotiation_timeout: 10 * SECOND,
            first_request_timeout: 5 * SECOND,
            idle_timeout: 60 * SECOND,
            request_header_timeout: 5 * SECOND,
            continue_write_timeout: 5 * SECOND,
            request_body_read_chunk_timeout: 5 * SECOND,
            headers_write_timeout: 5 * SECOND,
            body_write_timeout: 300 * SECOND,
            handler_timeout: 60 * SECOND,
            gracefull_shutdown_timeout: 60 * SECOND,
            response_buf_size: 4096,
            response_body_buf_size: 4096,
            response_chunked_buf_size: 65536,
            h2_settings: Settings::default(),
            h2_timeouts_check_interval: SECOND,
            h2_writer_flush_interval: 10 * MILLISECOND,
            h2_settings_timeout: 5 * SECOND,
            h2_ping_interval: 60 * SECOND,
            h2_ping_timeout: 5 * SECOND,
            h2_ping_payload: 42,
            h2_initial_global_window_size: 65535,
        }
    }
}

} // verus!
