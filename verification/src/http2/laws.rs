//! What holds of a connection whatever happens to it.

use vstd::prelude::*;

use super::connection::{ActionView, After, ConnView, NextView, Reaction, Rest};
use super::error::{ErrorCode, H2Error, H2Result};
use super::frame::{
    ContinuationFrameView, DataFrameView, Flags, FrameType, FrameView, GoAwayFrameView,
    HeadersFrameView, PingFrame, RstStreamFrame, SettingsFrame, WindowUpdateFrame,
};
use super::stream::{ConnectionReqView, Stream, StreamHandle, StreamReqView};
use crate::config::{Config, Nanos};
use crate::foreign::HeaderList;
use crate::message::RequestView;
use crate::response::ResponseView;

verus! {

impl ConnView {
    /// All streams were opened by the client and none of them is beyond the biggest one, there are
    /// not more of them than allowed, the peer has not sent more than it may, and its settings are
    /// in range.
    pub open spec fn consistent(self) -> bool {
        &&& forall|id: u32| #[trigger]
            self.streams.contains_key(id) ==> id % 2 == 1 && id <= self.biggest_open_stream
        &&& self.pending_headers matches Some((stream, _)) ==> stream % 2 == 1
        &&& self.config.h2_settings.max_concurrent_streams matches Some(max) ==> self.open_streams
            <= max
        &&& self.peer_window >= 0
        &&& self.remote_settings.wf()
        &&& self.block.len() <= self.block_max
    }
}

/// A connection is consistent from its begin on, if it is served at all.
pub proof fn law_new_connection_is_consistent(config: Config, now: Nanos)
    ensures
        ConnView::initial(config, now).consistent(),
        config.h2_initial_global_window_size >= super::connection::INITIAL_WINDOW
            ==> ConnView::initial(config, now).opened().consistent(),
{
}

/// Whether the connection goes on after an answer.
pub open spec fn goes_on(next: NextView) -> bool {
    next is Continue || next is Deliver
}

/// Whether nothing of an answer opens a stream.
pub open spec fn opens_nothing(reaction: Reaction) -> bool {
    forall|i: int|
        0 <= i < reaction.1.actions.len() ==> !((#[trigger] reaction.1.actions[i]) is Open)
}

proof fn lemma_distribute(conn: ConnView)
    requires
        conn.consistent(),
    ensures
        conn.distribute_window().0.consistent(),
        opens_nothing(conn.distribute_window()),
{
}

proof fn lemma_finish_reset(conn: ConnView, rest: Rest)
    requires
        conn.consistent(),
    ensures
        conn.finish_reset(rest).0.consistent(),
        opens_nothing(conn.finish_reset(rest)),
{
    lemma_distribute(conn);
}

proof fn lemma_send_reset(conn: ConnView, id: u32, code: ErrorCode, rest: Rest)
    requires
        conn.consistent(),
    ensures
        conn.send_reset(id, code, rest).0.consistent(),
        opens_nothing(conn.send_reset(id, code, rest)),
{
    lemma_finish_reset(conn, rest);
    let inner = conn.finish_reset(rest);
    let outer = conn.send_reset(id, code, rest);
    assert forall|i: int| 0 <= i < outer.1.actions.len() implies !((
    #[trigger] outer.1.actions[i]) is Open) by {
        if i > 0 {
            assert(outer.1.actions[i] == inner.1.actions[i - 1]);
        }
    }
}

proof fn lemma_stream_error(conn: ConnView, err: H2Error, id: u32, rest: Rest)
    requires
        conn.consistent(),
    ensures
        conn.stream_error(err, id, rest).0.consistent(),
        opens_nothing(conn.stream_error(err, id, rest)),
{
    if let H2Error::Stream(code) = err {
        lemma_send_reset(conn, id, code, rest);
    }
}

proof fn lemma_on_block(conn: ConnView, stream: u32, end_stream: bool)
    requires
        conn.consistent(),
        stream % 2 == 1,
    ensures
        conn.on_block(stream, end_stream).0.consistent(),
        conn.refuses_streams() ==> opens_nothing(conn.on_block(stream, end_stream)),
{
    lemma_stream_error(
        conn.block_taken(),
        H2Error::Stream(ErrorCode::RefusedStream),
        stream,
        Rest::Nothing,
    );
    let decoded = conn.block_decoded(conn.block);
    if let Some(list) = crate::foreign::decoded_headers(decoded.blocks) {
        if let Err(err) = super::headers::request_of(list) {
            lemma_stream_error(decoded.block_taken(), err, stream, Rest::Nothing);
        }
    }
}

proof fn lemma_on_block_part(
    conn: ConnView,
    stream: u32,
    end_stream: bool,
    end_headers: bool,
    data: Seq<u8>,
)
    requires
        conn.consistent(),
        stream % 2 == 1,
    ensures
        conn.on_block_part(stream, end_stream, end_headers, data).0.consistent(),
        conn.refuses_streams() ==> opens_nothing(
            conn.on_block_part(stream, end_stream, end_headers, data),
        ),
{
    let next = ConnView { block: conn.block + data, pending_headers: None, ..conn };
    if data.len() <= conn.block_max - conn.block.len() {
        lemma_on_block(next, stream, end_stream);
    }
}

/// A connection stays consistent, whatever frame it receives.
pub proof fn law_frame_keeps_consistency(conn: ConnView, frame: FrameView, now: Nanos)
    requires
        conn.consistent(),
    ensures
        conn.on_frame(frame, now).0.consistent(),
{
    let next = ConnView { last_frame_received: now, ..conn };
    match conn.pending_headers {
        Some((stream, end_stream)) => {
            if let Ok(part) = super::frame::ContinuationFrameView::decoded(frame) {
                lemma_on_block_part(conn, stream, end_stream, part.end_headers, part.data);
            }
        },
        None => {
            lemma_distribute(next);
            match frame.frame_type {
                FrameType::Headers => {
                    if let Ok(frame) = HeadersFrameView::decoded(frame) {
                        if frame.stream % 2 == 1 {
                            lemma_on_block_part(
                                next,
                                frame.stream,
                                frame.end_stream,
                                frame.end_headers,
                                frame.data,
                            );
                        }
                    }
                },
                FrameType::Settings => {
                    if let Ok(frame) = SettingsFrame::decoded(frame) {
                        super::settings::law_apply_keeps_wf(conn.remote_settings, frame);
                    }
                },
                _ => {},
            }
        },
    }
}

/// A connection which goes on after a message of one of its streams stays consistent.
pub proof fn law_request_keeps_consistency(conn: ConnView, req: ConnectionReqView)
    requires
        conn.consistent(),
    ensures
        goes_on(conn.on_request(req).1.next) ==> conn.on_request(req).0.consistent(),
{
    match req {
        ConnectionReqView::GetWindow(id, amount) => {
            lemma_distribute(ConnView { requests: conn.requests.push((id, amount)), ..conn });
        },
        ConnectionReqView::StreamClosing(id, Some(err)) => {
            lemma_stream_error(conn, err, id, Rest::CloseStream(id));
        },
        ConnectionReqView::StreamClosing(id, None) => {
            lemma_finish_reset(conn, Rest::CloseStream(id));
        },
        _ => {},
    }
}

/// A connection stays consistent after it tried to deliver a message to one of its streams.
pub proof fn law_delivery_keeps_consistency(conn: ConnView, after: After, ok: bool)
    requires
        conn.consistent(),
    ensures
        conn.delivered(after, ok).0.consistent(),
{
    match after {
        After::WindowUpdate(id) => {
            lemma_distribute(conn);
            lemma_stream_error(
                conn,
                H2Error::Stream(ErrorCode::StreamClosed),
                id,
                Rest::Distribute,
            );
        },
        After::Reset(id, code, rest) => {
            lemma_send_reset(conn, id, code, rest);
            lemma_send_reset(
                ConnView { streams: conn.streams.remove(id), ..conn },
                id,
                code,
                rest,
            );
        },
    }
}

/// Neither a shutdown nor a timer makes a connection inconsistent.
pub proof fn law_clock_keeps_consistency(conn: ConnView, now: Nanos)
    requires
        conn.consistent(),
    ensures
        conn.on_shutdown(now).0.consistent(),
        conn.on_timer(now).0.consistent(),
{
}

/// While the server shuts down, or while there are as many streams as allowed, no frame opens a
/// stream.
pub proof fn law_no_stream_is_opened_while_refusing(conn: ConnView, frame: FrameView, now: Nanos)
    requires
        conn.consistent(),
        conn.refuses_streams(),
    ensures
        opens_nothing(conn.on_frame(frame, now)),
{
    let next = ConnView { last_frame_received: now, ..conn };
    match conn.pending_headers {
        Some((stream, end_stream)) => {
            if let Ok(part) = super::frame::ContinuationFrameView::decoded(frame) {
                lemma_on_block_part(conn, stream, end_stream, part.end_headers, part.data);
            }
        },
        None => {
            lemma_distribute(next);
            if let FrameType::Headers = frame.frame_type {
                if let Ok(frame) = HeadersFrameView::decoded(frame) {
                    if frame.stream % 2 == 1 {
                        lemma_on_block_part(
                            next,
                            frame.stream,
                            frame.end_stream,
                            frame.end_headers,
                            frame.data,
                        );
                    }
                }
            }
        },
    }
}

/// A refused request is answered: a complete header block which would open a new stream is dropped,
/// and the stream is reset with the code for a refused stream.
pub proof fn law_refused_stream_is_reset(conn: ConnView, stream: u32, end_stream: bool)
    requires
        conn.refuses_streams(),
        !conn.streams.contains_key(stream),
        stream != 0,
    ensures
        conn.on_block(stream, end_stream).0 == conn.block_taken(),
        conn.on_block(stream, end_stream).1.actions == seq![
            ActionView::Write(
                super::connection::reset_frame(stream, ErrorCode::RefusedStream),
            ),
        ],
        conn.on_block(stream, end_stream).1.next is Continue,
{
    assert(conn.on_block(stream, end_stream).1.actions =~= seq![
        ActionView::Write(super::connection::reset_frame(stream, ErrorCode::RefusedStream)),
    ]);
}

/// The identifiers of closed streams are not used again: headers for a stream which is not known
/// are only accepted if its identifier is bigger than all identifiers before.
pub proof fn law_streams_are_not_reopened(conn: ConnView, frame: HeadersFrameView)
    requires
        !conn.streams.contains_key(frame.stream),
        frame.stream <= conn.biggest_open_stream,
    ensures
        conn.on_headers(frame) == (
            conn,
            super::connection::StepView::fail(ErrorCode::ProtocolError),
        ),
{
}

/// The peer never gets away with more data than it was granted: data is handed to a stream exactly
/// if it fits in the window, which shrinks by its length.
pub proof fn law_data_fits_in_window(conn: ConnView, frame: DataFrameView)
    requires
        conn.streams.contains_key(frame.stream),
        conn.peer_window >= 0,
    ensures
        frame.data.len() <= conn.peer_window ==> {
            &&& conn.on_data(frame).0.peer_window == conn.peer_window - frame.data.len()
            &&& conn.on_data(frame).1.actions == seq![
                ActionView::Send(frame.stream, StreamReqView::RequestBody(frame)),
            ]
            &&& conn.on_data(frame).1.next is Continue
        },
        frame.data.len() > conn.peer_window ==> {
            &&& conn.on_data(frame).0 == conn
            &&& conn.on_data(frame).1.actions.len() == 0
            &&& conn.on_data(frame).1.next is Exit
        },
{
    if frame.data.len() <= conn.peer_window {
        assert(conn.on_data(frame).1.actions =~= seq![
            ActionView::Send(frame.stream, StreamReqView::RequestBody(frame)),
        ]);
    }
}

/// Data which was received and read gives the peer back exactly the window it used.
pub proof fn law_peer_window_is_given_back(conn: ConnView, frame: DataFrameView)
    requires
        conn.streams.contains_key(frame.stream),
        0 <= frame.data.len() <= conn.peer_window,
    ensures
        ({
            let amount = frame.data.len() as i32;
            let received = conn.on_data(frame).0;
            let read = received.on_request(
                ConnectionReqView::UpdatePeerWindow(frame.stream, amount),
            );
            read.0 == conn && read.1.next is Continue
        }),
{
}

/// A ping of the peer is answered with the same data, and the own ping is done when its data comes
/// back.
#[verifier::spinoff_prover]
#[verifier::rlimit(40)]
pub proof fn law_pings_are_answered(conn: ConnView, data: u64, now: Nanos)
    requires
        conn.pending_headers is None,
    ensures
        conn.on_frame(PingFrame { ack: false, data }.encoded(), now).1 == (
        super::connection::StepView::write(PingFrame { ack: true, data }.encoded())),
        conn.on_frame(
            PingFrame { ack: true, data: conn.config.h2_ping_payload }.encoded(),
            now,
        ).0.ping_ack_timeout is None,
{
    super::frame::law_ping_frame_round_trip(PingFrame { ack: false, data });
    super::frame::law_ping_frame_round_trip(
        PingFrame { ack: true, data: conn.config.h2_ping_payload },
    );
}

/// Settings which are not acknowledged in time end the connection.
pub proof fn law_settings_timeout(conn: ConnView, sent: Nanos, now: Nanos)
    requires
        sent + conn.config.h2_settings_timeout < now,
    ensures
        conn.settings_sent(sent).on_timer(now).1 == super::connection::StepView::fail(
            ErrorCode::SettingsTimeout,
        ),
{
    let waiting = conn.settings_sent(sent);
    let last = waiting.settings_ack_timeouts.len() - 1;
    assert(now > waiting.settings_ack_timeouts[last]);
}

/// A ping which is not acknowledged in time ends the connection. Until then nothing is done about
/// it: no other ping is sent, and the deadline stays. This is said of a connection whose settings are
/// not late.
pub proof fn law_ping_timeout(conn: ConnView, deadline: Nanos, now: Nanos)
    requires
        conn.ping_ack_timeout == Some(deadline),
        !conn.settings_late(now),
    ensures
        now <= deadline ==> conn.on_timer(now) == (conn, super::connection::StepView::nothing()),
        now > deadline ==> conn.on_timer(now) == (
            conn,
            super::connection::StepView::fail(ErrorCode::ProtocolError),
        ),
{
}

/// A silent peer is noticed: after the interval a ping is sent, and its deadline is set.
pub proof fn law_silent_peer_is_pinged(conn: ConnView, now: Nanos)
    requires
        conn.ping_ack_timeout is None,
        !conn.settings_late(now),
        conn.last_frame_received + conn.config.h2_ping_interval < now,
        now + conn.config.h2_ping_timeout <= u128::MAX,
    ensures
        conn.on_timer(now).1 == super::connection::StepView::write(
            PingFrame { ack: false, data: conn.config.h2_ping_payload }.encoded(),
        ),
        conn.on_timer(now).0.ping_ack_timeout == Some(
            (now + conn.config.h2_ping_timeout) as u128,
        ),
{
}

/// Deadlines stay until they are met: nothing but a ping frame changes the deadline of a ping, and
/// nothing but a settings frame takes away a deadline of settings.
pub proof fn law_deadlines_are_kept(
    conn: ConnView,
    frame: FrameView,
    req: ConnectionReqView,
    after: After,
    ok: bool,
    now: Nanos,
)
    requires
        conn.ping_ack_timeout is Some,
    ensures
        frame.frame_type != FrameType::Ping ==> conn.on_frame(frame, now).0.ping_ack_timeout
            == conn.ping_ack_timeout,
        frame.frame_type != FrameType::Settings ==> conn.on_frame(
            frame,
            now,
        ).0.settings_ack_timeouts == conn.settings_ack_timeouts,
        conn.on_request(req).0.ping_ack_timeout == conn.ping_ack_timeout,
        conn.on_request(req).0.settings_ack_timeouts == conn.settings_ack_timeouts,
        conn.delivered(after, ok).0.ping_ack_timeout == conn.ping_ack_timeout,
        conn.delivered(after, ok).0.settings_ack_timeouts == conn.settings_ack_timeouts,
        conn.on_timer(now).0.ping_ack_timeout == conn.ping_ack_timeout,
        conn.on_timer(now).0.settings_ack_timeouts == conn.settings_ack_timeouts,
        conn.on_shutdown(now).0.ping_ack_timeout == conn.ping_ack_timeout,
        conn.settings_ack_timeouts.is_prefix_of(conn.on_shutdown(now).0.settings_ack_timeouts),
{
}

/// Settings which are accepted are acknowledged, after all streams are told by how much their
/// window changes.
pub proof fn law_settings_are_acknowledged(conn: ConnView, frame: SettingsFrame)
    requires
        !frame.ack,
        conn.remote_settings.applied(frame).1 is Ok,
    ensures
        conn.on_settings(frame).1.actions == seq![
            ActionView::UpdateWindows(
                (conn.on_settings(frame).0.remote_settings.initial_window_size
                    - conn.remote_settings.initial_window_size) as i32,
            ),
            ActionView::Write(SettingsFrame::listing(true, Seq::empty()).encoded()),
        ],
        conn.on_settings(frame).1.next is Continue,
{
    super::settings::law_apply_difference(conn.remote_settings, frame);
    assert(conn.on_settings(frame).1.actions =~= seq![
        ActionView::UpdateWindows(
            (conn.on_settings(frame).0.remote_settings.initial_window_size
                - conn.remote_settings.initial_window_size) as i32,
        ),
        ActionView::Write(SettingsFrame::listing(true, Seq::empty()).encoded()),
    ]);
}

/// After a shutdown the connection ends as soon as its last stream is closed.
pub proof fn law_shutdown_ends_with_last_stream(conn: ConnView, id: u32, now: Nanos)
    requires
        conn.open_streams == 1,
    ensures
        ({
            let stopping = conn.on_shutdown(now).0;
            &&& conn.on_shutdown(now).1.next is Continue
            &&& stopping.on_request(ConnectionReqView::StreamClosing(id, None)).1.next
                == NextView::Exit(Ok(()))
        }),
{
}

/// Distributing the global window keeps what the connection may send in total: what the streams
/// get is taken from the global window.
pub proof fn law_connection_window_is_conserved(conn: ConnView)
    ensures
        ({
            let d = super::window::distributed(
                conn.streams,
                conn.global_window,
                conn.requests,
            );
            &&& super::window::total(d.grants) + conn.distribute_window().0.global_window
                == conn.global_window
            &&& conn.distribute_window().1.actions.len() == d.grants.len()
        }),
{
    super::window::law_window_is_conserved(conn.streams, conn.global_window, conn.requests);
}

/// Whether every stream which is opened may send exactly the initial window of the peer, and lets
/// the peer send exactly the own one.
pub open spec fn opens_with_windows(conn: ConnView, reaction: Reaction) -> bool {
    forall|i: int|
        0 <= i < reaction.1.actions.len() ==> ((#[trigger] reaction.1.actions[i]) matches
            ActionView::Open(stream, _, _) ==> {
            &&& stream.window == conn.remote_settings.initial_window_size
            &&& stream.peer_window == conn.local_settings.initial_window_size
            &&& stream.available_window == 0
        })
}

proof fn lemma_reset_opens_nothing(conn: ConnView, err: H2Error, id: u32, rest: Rest)
    ensures
        opens_nothing(conn.stream_error(err, id, rest)),
{
    if let H2Error::Stream(code) = err {
        let inner = conn.finish_reset(rest);
        let outer = conn.send_reset(id, code, rest);
        assert forall|i: int| 0 <= i < outer.1.actions.len() implies !((
        #[trigger] outer.1.actions[i]) is Open) by {
            if i > 0 {
                assert(outer.1.actions[i] == inner.1.actions[i - 1]);
            }
        }
    }
}

proof fn lemma_block_opens_with_windows(
    conn: ConnView,
    stream: u32,
    end_stream: bool,
    end_headers: bool,
    data: Seq<u8>,
)
    ensures
        opens_with_windows(conn, conn.on_block_part(stream, end_stream, end_headers, data)),
{
    if data.len() <= conn.block_max - conn.block.len() && end_headers {
        let whole = ConnView { block: conn.block + data, pending_headers: None, ..conn };
        lemma_reset_opens_nothing(
            whole.block_taken(),
            H2Error::Stream(ErrorCode::RefusedStream),
            stream,
            Rest::Nothing,
        );
        let decoded = whole.block_decoded(whole.block);
        if let Some(list) = crate::foreign::decoded_headers(decoded.blocks) {
            if let Err(err) = super::headers::request_of(list) {
                lemma_reset_opens_nothing(decoded.block_taken(), err, stream, Rest::Nothing);
            }
        }
    }
}

/// A stream which a frame opens may send exactly the initial window of the peer, the peer may send
/// on it exactly the own initial window, which is the one that the first frame of the connection
/// announces, and nothing of the global window belongs to it yet.
#[verifier::spinoff_prover]
#[verifier::rlimit(30)]
pub proof fn law_opened_stream_has_announced_windows(conn: ConnView, frame: FrameView, now: Nanos)
    ensures
        opens_with_windows(conn, conn.on_frame(frame, now)),
        SettingsFrame::decoded(conn.opening_frames()[0]) matches Ok(own) && own.initial_window_size
            == Some(conn.local_settings.initial_window_size),
{
    super::frame::law_settings_frame_round_trip(
        SettingsFrame {
            ack: false,
            header_table_size: Some(conn.local_settings.header_table_size),
            enable_push: Some(conn.local_settings.enable_push),
            max_concurrent_streams: conn.local_settings.max_concurrent_streams,
            initial_window_size: Some(conn.local_settings.initial_window_size),
            max_frame_size: Some(conn.local_settings.max_frame_size),
            max_header_list_size: conn.local_settings.max_header_list_size,
        },
    );
    let next = ConnView { last_frame_received: now, ..conn };
    match conn.pending_headers {
        Some((stream, end_stream)) => {
            if let Ok(part) = super::frame::ContinuationFrameView::decoded(frame) {
                lemma_block_opens_with_windows(
                    conn,
                    stream,
                    end_stream,
                    part.end_headers,
                    part.data,
                );
            }
        },
        None => {
            if let FrameType::Headers = frame.frame_type {
                if let Ok(frame) = HeadersFrameView::decoded(frame) {
                    lemma_block_opens_with_windows(
                        next,
                        frame.stream,
                        frame.end_stream,
                        frame.end_headers,
                        frame.data,
                    );
                }
            }
        },
    }
}

/// Settings frames of the peer are taken over, told to the streams and acknowledged, with nothing
/// else behind the acknowledgement.
#[verifier::spinoff_prover]
#[verifier::rlimit(30)]
pub proof fn law_settings_of_the_peer_are_taken_over(
    conn: ConnView,
    frame: SettingsFrame,
    now: Nanos,
)
    requires
        conn.pending_headers is None,
        conn.remote_settings.wf(),
        !frame.ack,
        frame.max_frame_size matches Some(size) ==> 0x4000 <= size < 0x100_0000,
        frame.initial_window_size matches Some(size) ==> size < 0x8000_0000,
    ensures
        ({
            let (next, step) = conn.on_frame(frame.encoded(), now);
            &&& frame.initial_window_size matches Some(size)
                ==> next.remote_settings.initial_window_size == size
            &&& frame.initial_window_size is None ==> next.remote_settings.initial_window_size
                == conn.remote_settings.initial_window_size
            &&& frame.max_frame_size matches Some(size) ==> next.remote_settings.max_frame_size
                == size
            &&& frame.header_table_size matches Some(size)
                ==> next.remote_settings.header_table_size == size
            &&& frame.max_concurrent_streams matches Some(n)
                ==> next.remote_settings.max_concurrent_streams == Some(n)
            &&& step.next is Continue
            &&& step.actions.len() == 2
            &&& step.actions[0] matches ActionView::UpdateWindows(dif) && dif
                == next.remote_settings.initial_window_size
                - conn.remote_settings.initial_window_size
            &&& step.actions[1] matches ActionView::Write(answer) && answer.payload.len() == 0 && (
            SettingsFrame::decoded(answer) matches Ok(answer) && answer.ack)
        }),
{
    super::frame::law_settings_frame_round_trip(frame);
    super::frame::law_settings_frame_round_trip(SettingsFrame::listing(true, Seq::empty()));
    super::settings::law_announced_settings_are_taken_over(conn.remote_settings, frame);
    super::settings::law_apply_difference(conn.remote_settings, frame);
}

/// The own settings never change, and the settings of the peer only change with a settings frame.
pub proof fn law_settings_stay(
    conn: ConnView,
    frame: FrameView,
    req: ConnectionReqView,
    after: After,
    ok: bool,
    now: Nanos,
)
    ensures
        conn.on_frame(frame, now).0.local_settings == conn.local_settings,
        conn.on_frame(frame, now).0.config == conn.config,
        frame.frame_type != FrameType::Settings ==> conn.on_frame(frame, now).0.remote_settings
            == conn.remote_settings,
        conn.on_request(req).0.local_settings == conn.local_settings,
        conn.on_request(req).0.remote_settings == conn.remote_settings,
        conn.on_request(req).0.config == conn.config,
        conn.delivered(after, ok).0.local_settings == conn.local_settings,
        conn.delivered(after, ok).0.remote_settings == conn.remote_settings,
        conn.delivered(after, ok).0.config == conn.config,
        conn.on_timer(now).0.local_settings == conn.local_settings,
        conn.on_timer(now).0.remote_settings == conn.remote_settings,
        conn.on_timer(now).0.config == conn.config,
        conn.on_shutdown(now).0.local_settings == conn.local_settings,
        conn.on_shutdown(now).0.remote_settings == conn.remote_settings,
        conn.on_shutdown(now).0.config == conn.config,
{
}

/// A stream which is opened behind a settings frame of the peer may send the window which the frame
/// announced.
#[verifier::spinoff_prover]
#[verifier::rlimit(30)]
pub proof fn law_announced_window_counts(
    conn: ConnView,
    settings: SettingsFrame,
    size: u32,
    frame: FrameView,
    now: Nanos,
    i: int,
)
    requires
        conn.pending_headers is None,
        conn.remote_settings.wf(),
        !settings.ack,
        settings.max_frame_size is None,
        settings.initial_window_size == Some(size),
        size < 0x8000_0000,
        0 <= i < conn.on_frame(settings.encoded(), now).0.on_frame(frame, now).1.actions.len(),
    ensures
        ({
            let next = conn.on_frame(settings.encoded(), now).0;
            next.on_frame(frame, now).1.actions[i] matches ActionView::Open(stream, _, _)
                ==> stream.window == size && stream.peer_window
                == conn.local_settings.initial_window_size
        }),
{
    let next = conn.on_frame(settings.encoded(), now).0;
    law_settings_of_the_peer_are_taken_over(conn, settings, now);
    law_opened_stream_has_announced_windows(next, frame, now);
    law_settings_stay(
        conn,
        settings.encoded(),
        ConnectionReqView::PutWindow(0),
        After::WindowUpdate(0),
        true,
        now,
    );
}

/// A connection begins with the announcement of its own settings, which are those of the
/// configuration. What the peer may send at first is the window of the protocol, and with the
/// update behind the settings it is the configured one.
#[verifier::spinoff_prover]
#[verifier::rlimit(40)]
pub proof fn law_own_settings_are_announced(config: Config, now: Nanos)
    ensures
        ({
            let conn = ConnView::initial(config, now);
            let frames = conn.opening_frames();
            &&& conn.local_settings == config.h2_settings
            &&& conn.opened().local_settings == config.h2_settings
            &&& conn.remote_settings.initial_window_size == 65_535
            &&& conn.opened().remote_settings == conn.remote_settings
            &&& 1 <= frames.len() <= 2
            &&& SettingsFrame::decoded(frames[0]) == Ok::<SettingsFrame, H2Error>(
                SettingsFrame {
                    ack: false,
                    header_table_size: Some(config.h2_settings.header_table_size),
                    enable_push: Some(config.h2_settings.enable_push),
                    max_concurrent_streams: config.h2_settings.max_concurrent_streams,
                    initial_window_size: Some(config.h2_settings.initial_window_size),
                    max_frame_size: Some(config.h2_settings.max_frame_size),
                    max_header_list_size: config.h2_settings.max_header_list_size,
                },
            )
            &&& frames.len() == 2 ==> {
                &&& WindowUpdateFrame::decoded(frames[1]) matches Ok(update)
                &&& update.stream == 0
                &&& 65_535 + update.window_size_increment == conn.opened().peer_window
            }
            &&& frames.len() == 2 <==> config.h2_initial_global_window_size > 65_535
            &&& conn.opened().peer_window == config.h2_initial_global_window_size
            &&& conn.opened().global_window == 65_535
        }),
{
    let conn = ConnView::initial(config, now);
    let settings = SettingsFrame {
        ack: false,
        header_table_size: Some(config.h2_settings.header_table_size),
        enable_push: Some(config.h2_settings.enable_push),
        max_concurrent_streams: config.h2_settings.max_concurrent_streams,
        initial_window_size: Some(config.h2_settings.initial_window_size),
        max_frame_size: Some(config.h2_settings.max_frame_size),
        max_header_list_size: config.h2_settings.max_header_list_size,
    };
    super::frame::law_settings_frame_round_trip(settings);
    let size = config.h2_initial_global_window_size;
    if size > super::connection::INITIAL_WINDOW {
        super::frame::law_window_update_frame_round_trip(
            WindowUpdateFrame {
                stream: 0,
                window_size_increment: (size - super::connection::INITIAL_WINDOW) as u32,
            },
        );
    }
}

/// When a stream has read some data, the peer is told with exactly two window updates, one for the
/// connection and one for the stream, and both of them grant exactly the amount.
pub proof fn law_peer_is_told_of_window(conn: ConnView, id: u32, amount: i32)
    requires
        amount >= 0,
        conn.peer_window + amount <= i32::MAX,
    ensures
        ({
            let (next, step) = conn.on_request(ConnectionReqView::UpdatePeerWindow(id, amount));
            &&& step.next is Continue
            &&& step.actions.len() == 2
            &&& step.actions[0] matches ActionView::Write(global) && WindowUpdateFrame::decoded(
                global,
            ) matches Ok(global) && global.stream == 0 && global.window_size_increment == amount
            &&& step.actions[1] matches ActionView::Write(local) && WindowUpdateFrame::decoded(
                local,
            ) matches Ok(local) && local.stream == id && local.window_size_increment == amount
            &&& next.peer_window == conn.peer_window + amount
            &&& next == (ConnView { peer_window: next.peer_window, ..conn })
        }),
{
    super::frame::law_window_update_frame_round_trip(
        WindowUpdateFrame { stream: 0, window_size_increment: amount as u32 },
    );
    super::frame::law_window_update_frame_round_trip(
        WindowUpdateFrame { stream: id, window_size_increment: amount as u32 },
    );
}

/// A headers frame which completes a new header block opens the stream that it belongs to, with the
/// request which its header list describes, unless the server shuts down or there are as many
/// streams as allowed. The stream is known from then on.
#[verifier::spinoff_prover]
#[verifier::rlimit(30)]
pub proof fn law_complete_headers_open_a_stream(
    conn: ConnView,
    frame: HeadersFrameView,
    list: HeaderList,
    req: RequestView,
    now: Nanos,
)
    requires
        conn.pending_headers is None,
        conn.block.len() == 0,
        !conn.pending_gracefull_shutdown,
        conn.config.h2_settings.max_concurrent_streams matches Some(max) ==> conn.open_streams
            < max,
        conn.open_streams < u32::MAX,
        conn.remote_settings.initial_window_size < 0x8000_0000,
        conn.local_settings.initial_window_size < 0x8000_0000,
        frame.stream % 2 == 1,
        frame.stream > conn.biggest_open_stream,
        frame.end_headers,
        frame.priority is None,
        frame.data.len() <= conn.block_max,
        super::hpack::bad_update(frame.data, 0) is None,
        crate::foreign::decoded_headers(conn.blocks.push(frame.data)) == Some(list),
        super::headers::request_of(list) == Ok::<RequestView, H2Error>(req),
    ensures
        ({
            let (next, step) = conn.on_frame(frame.encoded(), now);
            &&& step.next is Continue
            &&& step.actions.len() == 1
            &&& step.actions[0] matches ActionView::Open(stream, request, end_stream) && {
                &&& stream.id == frame.stream
                &&& stream.state is Open
                &&& !stream.has_body
                &&& request == req
                &&& end_stream == frame.end_stream
            }
            &&& next.streams == conn.streams.insert(frame.stream, StreamHandle { closed: false })
            &&& next.open_streams == conn.open_streams + 1
            &&& next.biggest_open_stream == frame.stream
            &&& next.blocks == conn.blocks.push(frame.data)
            &&& next.block.len() == 0
            &&& next.pending_headers is None
        }),
{
    super::frame::law_headers_frame_round_trip(frame);
    assert(conn.block + frame.data =~= frame.data);
}

/// It makes no difference how a header block is distributed over frames: a part in a headers frame
/// and a part in a continuation frame are as good as both parts in one headers frame.
#[verifier::spinoff_prover]
#[verifier::rlimit(30)]
pub proof fn law_continuation_goes_on_with_headers(
    conn: ConnView,
    stream: u32,
    end_stream: bool,
    end_headers: bool,
    first: Seq<u8>,
    second: Seq<u8>,
    now: Nanos,
)
    requires
        conn.pending_headers is None,
        stream % 2 == 1,
        stream > conn.biggest_open_stream || conn.streams.contains_key(stream),
        conn.block.len() + first.len() + second.len() <= conn.block_max,
    ensures
        ({
            let begin = HeadersFrameView {
                stream,
                end_stream,
                end_headers: false,
                priority: None,
                data: first,
            };
            let end = ContinuationFrameView { stream, end_headers, data: second };
            let both = HeadersFrameView {
                stream,
                end_stream,
                end_headers,
                priority: None,
                data: first + second,
            };
            let waiting = conn.on_frame(begin.encoded(), now);
            &&& waiting.1.actions.len() == 0
            &&& waiting.1.next is Continue
            &&& waiting.0.pending_headers is Some
            &&& waiting.0.on_frame(end.encoded(), now) == conn.on_frame(both.encoded(), now)
        }),
{
    let begin = HeadersFrameView {
        stream,
        end_stream,
        end_headers: false,
        priority: None,
        data: first,
    };
    let end = ContinuationFrameView { stream, end_headers, data: second };
    let both = HeadersFrameView {
        stream,
        end_stream,
        end_headers,
        priority: None,
        data: first + second,
    };
    super::frame::law_headers_frame_round_trip(begin);
    super::frame::law_headers_frame_round_trip(both);
    super::frame::law_continuation_frame_round_trip(end);
    assert(conn.block + first + second =~= conn.block + (first + second));
}

/// Until a header block is complete, nothing but a continuation of the same stream is accepted.
pub proof fn law_header_block_is_not_interrupted(
    conn: ConnView,
    stream: u32,
    end_stream: bool,
    frame: FrameView,
    now: Nanos,
)
    requires
        conn.pending_headers == Some((stream, end_stream)),
        frame.frame_type != FrameType::Continuation || frame.stream != stream,
    ensures
        conn.on_frame(frame, now).0 == conn,
        conn.on_frame(frame, now).1.actions.len() == 0,
        conn.on_frame(frame, now).1.next == NextView::Exit(
            Err(H2Error::Connection(ErrorCode::ProtocolError)),
        ),
{
}

/// Headers are only accepted for a stream with an odd identifier which is known or bigger than all
/// identifiers before.
pub proof fn law_stream_identifiers_grow(conn: ConnView, frame: HeadersFrameView, now: Nanos)
    requires
        conn.pending_headers is None,
        frame.priority is None,
        frame.stream != 0,
        frame.stream % 2 == 0 || !conn.streams.contains_key(frame.stream) && frame.stream
            <= conn.biggest_open_stream,
    ensures
        conn.on_frame(frame.encoded(), now).1.actions.len() == 0,
        conn.on_frame(frame.encoded(), now).1.next == NextView::Exit(
            Err(H2Error::Connection(ErrorCode::ProtocolError)),
        ),
        conn.on_frame(frame.encoded(), now).0.streams == conn.streams,
{
    super::frame::law_headers_frame_round_trip(frame);
}

/// A header block which does not fit in the buffer ends the connection.
pub proof fn law_header_blocks_are_limited(conn: ConnView, frame: HeadersFrameView, now: Nanos)
    requires
        conn.pending_headers is None,
        frame.priority is None,
        frame.stream != 0,
        conn.block.len() + frame.data.len() > conn.block_max,
    ensures
        conn.on_frame(frame.encoded(), now).1.actions.len() == 0,
        conn.on_frame(frame.encoded(), now).1.next == NextView::Exit(
            Err(H2Error::Connection(ErrorCode::ProtocolError)),
        ),
        conn.on_frame(frame.encoded(), now).0.streams == conn.streams,
{
    super::frame::law_headers_frame_round_trip(frame);
}

/// Once the server shuts down no frame opens a stream, and neither does one while there are as many
/// streams as the own settings allow.
pub proof fn law_busy_server_opens_no_stream(conn: ConnView, frame: FrameView, now: Nanos)
    requires
        conn.consistent(),
        conn.pending_gracefull_shutdown || conn.config.h2_settings.max_concurrent_streams == Some(
            conn.open_streams,
        ),
    ensures
        opens_nothing(conn.on_frame(frame, now)),
{
    law_no_stream_is_opened_while_refusing(conn, frame, now);
}

/// The frame which resets a stream names the stream and the code.
pub proof fn law_reset_is_read_back(id: u32, code: ErrorCode, ret: H2Result<RstStreamFrame>)
    requires
        RstStreamFrame::decodes(super::connection::reset_frame(id, code), ret),
    ensures
        ret == Ok::<RstStreamFrame, H2Error>(RstStreamFrame { stream: id, error_code: Some(code) }),
{
    super::frame::law_rst_stream_frame_round_trip(
        RstStreamFrame { stream: id, error_code: Some(code) },
        ret,
    );
}

/// Whether a frame can only be read as a reset of the given stream with the given code.
pub open spec fn resets(frame: FrameView, id: u32, code: ErrorCode) -> bool {
    forall|ret: H2Result<RstStreamFrame>| #[trigger]
        RstStreamFrame::decodes(frame, ret) ==> ret == Ok::<RstStreamFrame, H2Error>(
            RstStreamFrame { stream: id, error_code: Some(code) },
        )
}

proof fn lemma_resets(id: u32, code: ErrorCode)
    ensures
        resets(super::connection::reset_frame(id, code), id, code),
        super::connection::reset_frame(id, code).frame_type == FrameType::RstStream,
{
    assert forall|ret: H2Result<RstStreamFrame>| #[trigger]
        RstStreamFrame::decodes(super::connection::reset_frame(id, code), ret) implies ret == Ok::<
        RstStreamFrame,
        H2Error,
    >(RstStreamFrame { stream: id, error_code: Some(code) }) by {
        law_reset_is_read_back(id, code, ret);
    }
}

/// A complete header block which would open a stream beyond the limits is not decoded: the peer is
/// told that the stream is refused, and nothing else happens.
pub proof fn law_refusal_is_told(
    conn: ConnView,
    frame: HeadersFrameView,
    now: Nanos,
)
    requires
        conn.pending_headers is None,
        conn.pending_gracefull_shutdown || conn.config.h2_settings.max_concurrent_streams == Some(
            conn.open_streams,
        ),
        frame.stream % 2 == 1,
        frame.stream > conn.biggest_open_stream,
        !conn.streams.contains_key(frame.stream),
        frame.end_headers,
        frame.priority is None,
        conn.block.len() + frame.data.len() <= conn.block_max,
    ensures
        ({
            let (next, step) = conn.on_frame(frame.encoded(), now);
            &&& step.next is Continue
            &&& step.actions.len() == 1
            &&& step.actions[0] matches ActionView::Write(reset) && reset.frame_type
                == FrameType::RstStream && resets(reset, frame.stream, ErrorCode::RefusedStream)
            &&& next.streams == conn.streams
            &&& next.open_streams == conn.open_streams
            &&& next.biggest_open_stream == conn.biggest_open_stream
            &&& next.blocks == conn.blocks
            &&& next.block.len() == 0
        }),
{
    super::frame::law_headers_frame_round_trip(frame);
    lemma_resets(frame.stream, ErrorCode::RefusedStream);
}

/// A stream which closes with an error of its own is reset with the code of the error: first the
/// stream is told, if it is still known, then the peer is told, and then the stream counts as
/// closed.
#[verifier::spinoff_prover]
#[verifier::rlimit(30)]
pub proof fn law_failed_stream_is_reset(conn: ConnView, id: u32, code: ErrorCode)
    requires
        id != 0,
        conn.open_streams > 0,
        !conn.pending_gracefull_shutdown,
    ensures
        ({
            let (told, step) = conn.on_request(
                ConnectionReqView::StreamClosing(id, Some(H2Error::Stream(code))),
            );
            if conn.streams.contains_key(id) {
                &&& step.actions.len() == 0
                &&& told.streams == conn.streams.insert(id, StreamHandle { closed: true })
                &&& told.open_streams == conn.open_streams
                &&& step.next matches NextView::Deliver(to, StreamReqView::Reset, after) && {
                    let (done, rest) = told.delivered(after, true);
                    let (gone, last) = told.delivered(after, false);
                    &&& to == id
                    &&& rest.next is Continue
                    &&& rest.actions.len() == 1
                    &&& rest.actions[0] matches ActionView::Write(reset) && resets(reset, id, code)
                    &&& done.open_streams == conn.open_streams - 1
                    &&& done.streams == conn.streams.insert(id, StreamHandle { closed: true })
                    &&& last.next is Continue
                    &&& last.actions.len() == 2
                    &&& last.actions[0] == ActionView::Forget(id)
                    &&& last.actions[1] matches ActionView::Write(reset) && resets(reset, id, code)
                    &&& gone.open_streams == conn.open_streams - 1
                    &&& gone.streams == conn.streams.remove(id)
                }
            } else {
                &&& step.next is Continue
                &&& step.actions.len() == 1
                &&& step.actions[0] matches ActionView::Write(reset) && resets(reset, id, code)
                &&& told.open_streams == conn.open_streams - 1
                &&& told.streams == conn.streams
            }
        }),
{
    lemma_resets(id, code);
    if conn.streams.contains_key(id) {
        let told = conn.on_request(
            ConnectionReqView::StreamClosing(id, Some(H2Error::Stream(code))),
        ).0;
        let after = After::Reset(id, code, Rest::CloseStream(id));
        assert(told.delivered(after, true).0.streams =~= conn.streams.insert(
            id,
            StreamHandle { closed: true },
        ));
        assert(told.delivered(after, false).0.streams =~= conn.streams.remove(id));
    }
}

/// An error of the whole connection ends it with exactly this error, whoever reports it.
pub proof fn law_connection_error_ends_connection(conn: ConnView, id: u32, code: ErrorCode)
    ensures
        conn.on_request(
            ConnectionReqView::StreamClosing(id, Some(H2Error::Connection(code))),
        ).1.actions.len() == 0,
        conn.on_request(
            ConnectionReqView::StreamClosing(id, Some(H2Error::Connection(code))),
        ).1.next == NextView::Exit(Err(H2Error::Connection(code))),
{
}

/// The last frame of a connection names the biggest stream and why the connection ends.
#[verifier::spinoff_prover]
#[verifier::rlimit(40)]
pub proof fn law_end_is_told(
    conn: ConnView,
    result: H2Result<()>,
    ret: H2Result<GoAwayFrameView>,
)
    requires
        conn.biggest_open_stream < 0x8000_0000,
        GoAwayFrameView::decodes(conn.go_away(result), ret),
    ensures
        ret matches Ok(away) && {
            &&& away.last_stream_id == conn.biggest_open_stream
            &&& away.error_code == Some(
                match result {
                    Ok(()) => ErrorCode::NoError,
                    Err(H2Error::Stream(code)) => code,
                    Err(H2Error::Connection(code)) => code,
                },
            )
            &&& away.debug_data.len() == 0
        },
{
    let frame = GoAwayFrameView {
        last_stream_id: conn.biggest_open_stream,
        error_code: Some(
            match result {
                Ok(()) => ErrorCode::NoError,
                Err(H2Error::Stream(code)) => code,
                Err(H2Error::Connection(code)) => code,
            },
        ),
        debug_data: Seq::empty(),
    };
    super::frame::law_go_away_frame_round_trip(frame, ret);
}

/// Body data reaches the stream that it belongs to as it is, and uses up as much of the window of
/// the peer as it is long. Data for an unknown stream, or beyond the window, ends the connection.
pub proof fn law_data_reaches_its_stream(conn: ConnView, frame: DataFrameView, now: Nanos)
    requires
        conn.pending_headers is None,
        frame.stream != 0,
    ensures
        ({
            let (next, step) = conn.on_frame(frame.encoded(), now);
            let known = conn.streams.contains_key(frame.stream);
            &&& known && frame.data.len() <= conn.peer_window ==> {
                &&& step.next is Continue
                &&& step.actions.len() == 1
                &&& step.actions[0] == ActionView::Send(
                    frame.stream,
                    StreamReqView::RequestBody(frame),
                )
                &&& next.peer_window == conn.peer_window - frame.data.len()
                &&& next == (ConnView {
                    peer_window: next.peer_window,
                    last_frame_received: now,
                    ..conn
                })
            }
            &&& !known ==> step.actions.len() == 0 && step.next == NextView::Exit(
                Err(H2Error::Connection(ErrorCode::ProtocolError)),
            )
            &&& known && conn.peer_window < frame.data.len() <= i32::MAX ==> step.actions.len() == 0
                && step.next == NextView::Exit(
                Err(H2Error::Connection(ErrorCode::FlowControlError)),
            )
        }),
{
    super::frame::law_data_frame_round_trip(frame);
}

/// A window update of the connection makes its window grow by the increment, all of which is either
/// left or handed to streams, in the order in which they asked. An update which makes it too big
/// ends the connection.
#[verifier::spinoff_prover]
#[verifier::rlimit(30)]
pub proof fn law_global_window_grows(conn: ConnView, increment: u32, now: Nanos)
    requires
        conn.pending_headers is None,
        increment < 0x8000_0000,
    ensures
        ({
            let update = WindowUpdateFrame { stream: 0, window_size_increment: increment };
            let (next, step) = conn.on_frame(update.encoded(), now);
            &&& conn.global_window + increment <= i32::MAX ==> {
                let window = (conn.global_window + increment) as i32;
                let d = super::window::distributed(conn.streams, window, conn.requests);
                &&& step.next is Continue
                &&& step.actions.len() == d.grants.len()
                &&& forall|i: int|
                    0 <= i < d.grants.len() ==> #[trigger] step.actions[i] == ActionView::Send(
                        d.grants[i].0,
                        StreamReqView::AvailableWindow(d.grants[i].1),
                    )
                &&& super::window::total(d.grants) + next.global_window == conn.global_window
                    + increment
                &&& next.requests == d.waiting
                &&& next.peer_window == conn.peer_window
                &&& next.streams == conn.streams
            }
            &&& conn.global_window + increment > i32::MAX ==> step.actions.len() == 0 && step.next
                == NextView::Exit(Err(H2Error::Connection(ErrorCode::InternalError)))
        }),
{
    let update = WindowUpdateFrame { stream: 0, window_size_increment: increment };
    super::frame::law_window_update_frame_round_trip(update);
    if conn.global_window + increment <= i32::MAX {
        let window = (conn.global_window + increment) as i32;
        super::window::law_window_is_conserved(conn.streams, window, conn.requests);
    }
}

/// A window update of a known stream is delivered to the stream with the increment as it is, and
/// nothing else changes. If the stream turns out to be gone, it is reset.
pub proof fn law_window_update_reaches_its_stream(
    conn: ConnView,
    id: u32,
    increment: u32,
    now: Nanos,
)
    requires
        conn.pending_headers is None,
        id != 0,
        conn.streams.contains_key(id),
        increment < 0x8000_0000,
    ensures
        ({
            let update = WindowUpdateFrame { stream: id, window_size_increment: increment };
            let (next, step) = conn.on_frame(update.encoded(), now);
            &&& next == (ConnView { last_frame_received: now, ..conn })
            &&& step.actions.len() == 0
            &&& step.next matches NextView::Deliver(to, StreamReqView::WindowUpdate(amount), after)
                && {
                &&& to == id
                &&& amount == increment
                &&& next.delivered(after, true).1.next is Continue
                &&& next.delivered(after, true).0.streams == conn.streams
                &&& next.delivered(after, false).1.next matches NextView::Deliver(
                    to,
                    StreamReqView::Reset,
                    After::Reset(about, code, _),
                ) && to == id && about == id && code == ErrorCode::StreamClosed
            }
        }),
{
    super::frame::law_window_update_frame_round_trip(
        WindowUpdateFrame { stream: id, window_size_increment: increment },
    );
}

/// A known stream which asks for window while nobody waits gets it at once, as far as there is
/// some, and it waits for the rest.
pub proof fn law_window_is_handed_out(conn: ConnView, id: u32, amount: i32)
    requires
        conn.streams.contains_key(id),
        conn.requests.len() == 0,
        amount > 0,
        conn.global_window > 0,
    ensures
        ({
            let (next, step) = conn.on_request(ConnectionReqView::GetWindow(id, amount));
            let granted = if amount <= conn.global_window {
                amount
            } else {
                conn.global_window
            };
            &&& step.next is Continue
            &&& step.actions.len() == 1
            &&& step.actions[0] == ActionView::Send(id, StreamReqView::AvailableWindow(granted))
            &&& next.global_window == conn.global_window - granted
            &&& amount <= conn.global_window ==> next.requests.len() == 0
            &&& amount > conn.global_window ==> next.requests.len() == 1 && next.requests[0].0 == id
                && next.requests[0].1 == amount - conn.global_window
        }),
{
    assert(conn.requests.push((id, amount)) =~= seq![(id, amount)]);
    super::window::law_lone_request_is_served(conn.streams, conn.global_window, id, amount);
}

/// A stream which asks for window while there is none waits behind those which asked before.
pub proof fn law_window_is_waited_for(conn: ConnView, id: u32, amount: i32)
    requires
        conn.global_window <= 0,
    ensures
        ({
            let (next, step) = conn.on_request(ConnectionReqView::GetWindow(id, amount));
            &&& step.next is Continue
            &&& step.actions.len() == 0
            &&& next.global_window == conn.global_window
            &&& next.requests == conn.requests.push((id, amount))
        }),
{
}

/// Window which a stream gives back is added to the global window, and goes to those who wait.
pub proof fn law_returned_window_is_kept(conn: ConnView, amount: i32)
    requires
        i32::MIN <= conn.global_window + amount <= i32::MAX,
    ensures
        ({
            let (next, step) = conn.on_request(ConnectionReqView::PutWindow(amount));
            let window = (conn.global_window + amount) as i32;
            let d = super::window::distributed(conn.streams, window, conn.requests);
            &&& step.next is Continue
            &&& step.actions.len() == d.grants.len()
            &&& super::window::total(d.grants) + next.global_window == conn.global_window + amount
            &&& next.requests == d.waiting
        }),
{
    let window = (conn.global_window + amount) as i32;
    super::window::law_window_is_conserved(conn.streams, window, conn.requests);
}

/// The response of a stream is written as one header block, which is the encoding of its header
/// list behind the lists before. All frames belong to the stream, and the first one ends the stream
/// exactly if there is no body.
#[verifier::spinoff_prover]
#[verifier::rlimit(30)]
pub proof fn law_response_is_written(
    conn: ConnView,
    resp: ResponseView,
    id: u32,
    end_stream: bool,
)
    ensures
        ({
            let (next, step) = conn.on_request(ConnectionReqView::Response(resp, id, end_stream));
            let frames = Seq::new(step.actions.len(), |i: int| step.actions[i]->Write_0);
            &&& step.next is Continue
            &&& step.actions.len() > 0
            &&& forall|i: int| 0 <= i < step.actions.len() ==> (#[trigger] step.actions[i]) is Write
            &&& super::headers::payloads(frames) == crate::foreign::encoded_block(
                conn.lists.push(resp.header_list()),
            )
            &&& next == (ConnView { lists: conn.lists.push(resp.header_list()), ..conn })
            &&& forall|i: int|
                0 <= i < frames.len() ==> {
                    &&& (#[trigger] frames[i]).stream == id
                    &&& frames[i].frame_type == if i == 0 {
                        FrameType::Headers
                    } else {
                        FrameType::Continuation
                    }
                    &&& frames[i].flags.has(Flags::END_HEADERS) == (i == frames.len() - 1)
                }
            &&& frames[0].flags.has(Flags::END_STREAM) == end_stream
        }),
{
    let step = conn.on_request(ConnectionReqView::Response(resp, id, end_stream)).1;
    let frames = Seq::new(step.actions.len(), |i: int| step.actions[i]->Write_0);
    let block = crate::foreign::encoded_block(conn.lists.push(resp.header_list()));
    super::headers::law_block_is_kept(id, end_stream, block);
    assert(frames =~= super::headers::block_frames(id, end_stream, block));
}

/// A frame of a stream is written as it is, and changes nothing.
pub proof fn law_frame_of_stream_is_written(conn: ConnView, frame: FrameView)
    ensures
        conn.on_request(ConnectionReqView::Frame(frame)).0 == conn,
        conn.on_request(ConnectionReqView::Frame(frame)).1.actions.len() == 1,
        conn.on_request(ConnectionReqView::Frame(frame)).1.actions[0] == ActionView::Write(frame),
        conn.on_request(ConnectionReqView::Frame(frame)).1.next is Continue,
{
}

/// A stream which closes without an error is counted as closed, but stays known until it is gone.
/// Then it is forgotten.
pub proof fn law_closed_stream_is_forgotten(conn: ConnView, id: u32)
    requires
        conn.open_streams > 0,
        conn.streams.contains_key(id),
        !conn.pending_gracefull_shutdown,
    ensures
        ({
            let (closing, step) = conn.on_request(ConnectionReqView::StreamClosing(id, None));
            let (closed, last) = closing.on_request(ConnectionReqView::StreamClosed(id));
            &&& step.actions.len() == 0
            &&& step.next is Continue
            &&& closing.open_streams == conn.open_streams - 1
            &&& closing.streams.contains_key(id)
            &&& closing.streams[id].closed
            &&& last.actions.len() == 1
            &&& last.actions[0] == ActionView::Forget(id)
            &&& last.next is Continue
            &&& closed.open_streams == closing.open_streams
            &&& closed.streams == conn.streams.remove(id)
        }),
{
    let closing = conn.on_request(ConnectionReqView::StreamClosing(id, None)).0;
    let closed = closing.on_request(ConnectionReqView::StreamClosed(id)).0;
    assert(closed.streams =~= conn.streams.remove(id));
}

/// A shutdown ends an idle connection at once. Else the peer is told by a settings frame that no
/// more streams are accepted, which is to be acknowledged in time, and the connection goes on.
#[verifier::spinoff_prover]
#[verifier::rlimit(30)]
pub proof fn law_shutdown_is_told(conn: ConnView, now: Nanos)
    requires
        now + conn.config.h2_settings_timeout <= u128::MAX,
    ensures
        ({
            let (next, step) = conn.on_shutdown(now);
            &&& conn.open_streams == 0 ==> step.actions.len() == 0 && step.next == NextView::Exit(
                Ok(()),
            )
            &&& conn.open_streams > 0 ==> {
                &&& step.next is Continue
                &&& step.actions.len() == 1
                &&& step.actions[0] matches ActionView::Write(frame) && SettingsFrame::decoded(
                    frame,
                ) == Ok::<SettingsFrame, H2Error>(
                    SettingsFrame {
                        ack: false,
                        header_table_size: None,
                        enable_push: None,
                        max_concurrent_streams: Some(0),
                        initial_window_size: None,
                        max_frame_size: None,
                        max_header_list_size: None,
                    },
                )
                &&& next.pending_gracefull_shutdown
                &&& next.streams == conn.streams
                &&& next.open_streams == conn.open_streams
                &&& next.settings_ack_timeouts.len() == conn.settings_ack_timeouts.len() + 1
                &&& next.settings_ack_timeouts.last() == now + conn.config.h2_settings_timeout
            }
        }),
{
    super::frame::law_settings_frame_round_trip(
        SettingsFrame {
            ack: false,
            header_table_size: None,
            enable_push: None,
            max_concurrent_streams: Some(0),
            initial_window_size: None,
            max_frame_size: None,
            max_header_list_size: None,
        },
    );
}

/// The timer does nothing as long as all settings can still be acknowledged in time and either a
/// ping can still be answered in time or the last frame is not older than the interval. A ping
/// which it sends holds the configured data and is no acknowledgement.
pub proof fn law_timer_is_patient(conn: ConnView, now: Nanos)
    requires
        forall|i: int|
            0 <= i < conn.settings_ack_timeouts.len() ==> now <= #[trigger]
                conn.settings_ack_timeouts[i],
    ensures
        match conn.ping_ack_timeout {
            Some(deadline) => now <= deadline,
            None => now <= conn.last_frame_received + conn.config.h2_ping_interval,
        } ==> conn.on_timer(now).0 == conn && conn.on_timer(now).1.actions.len() == 0
            && conn.on_timer(now).1.next is Continue,
        conn.ping_ack_timeout is None && now > conn.last_frame_received
            + conn.config.h2_ping_interval ==> {
            &&& conn.on_timer(now).1.next is Continue
            &&& conn.on_timer(now).1.actions.len() == 1
            &&& conn.on_timer(now).1.actions[0] matches ActionView::Write(ping)
                && PingFrame::decoded(ping) == Ok::<PingFrame, H2Error>(
                PingFrame { ack: false, data: conn.config.h2_ping_payload },
            )
        },
{
    super::frame::law_ping_frame_round_trip(
        PingFrame { ack: false, data: conn.config.h2_ping_payload },
    );
}

/// Settings which are late end the connection, whichever of them it is, and so does a ping.
pub proof fn law_timer_is_strict(conn: ConnView, now: Nanos, i: int)
    ensures
        0 <= i < conn.settings_ack_timeouts.len() && now > conn.settings_ack_timeouts[i]
            ==> conn.on_timer(now).1.next == NextView::Exit(
            Err(H2Error::Connection(ErrorCode::SettingsTimeout)),
        ),
        conn.ping_ack_timeout matches Some(deadline) && now > deadline
            ==> conn.on_timer(now).1.next is Exit,
{
}

/// An acknowledgement of settings lifts the oldest deadline and no other.
pub proof fn law_acknowledgement_lifts_deadline(conn: ConnView, now: Nanos)
    requires
        conn.pending_headers is None,
    ensures
        ({
            let ack = SettingsFrame::listing(true, Seq::empty());
            let (next, step) = conn.on_frame(ack.encoded(), now);
            &&& step.actions.len() == 0
            &&& step.next is Continue
            &&& next == (ConnView {
                settings_ack_timeouts: next.settings_ack_timeouts,
                last_frame_received: now,
                ..conn
            })
            &&& conn.settings_ack_timeouts.len() > 0 ==> seq![conn.settings_ack_timeouts[0]]
                + next.settings_ack_timeouts == conn.settings_ack_timeouts
            &&& conn.settings_ack_timeouts.len() == 0 ==> next.settings_ack_timeouts.len() == 0
        }),
{
    let ack = SettingsFrame::listing(true, Seq::empty());
    super::frame::law_settings_frame_round_trip(ack);
    if conn.settings_ack_timeouts.len() > 0 {
        assert(seq![conn.settings_ack_timeouts[0]] + conn.settings_ack_timeouts.skip(1)
            =~= conn.settings_ack_timeouts);
    }
}

/// A ping with foreign data is no answer to the own one and ends the connection. The answer lifts
/// the deadline, and a ping of the peer changes nothing and is answered with its data.
pub proof fn law_answer_has_the_data_of_the_ping(conn: ConnView, data: u64, now: Nanos)
    requires
        conn.pending_headers is None,
    ensures
        ({
            let (next, step) = conn.on_frame(PingFrame { ack: true, data }.encoded(), now);
            let (pinged, answer) = conn.on_frame(PingFrame { ack: false, data }.encoded(), now);
            &&& data != conn.config.h2_ping_payload ==> step.next == NextView::Exit(
                Err(H2Error::Connection(ErrorCode::ProtocolError)),
            )
            &&& data == conn.config.h2_ping_payload ==> step.next is Continue && step.actions.len()
                == 0 && next == (ConnView {
                ping_ack_timeout: None,
                last_frame_received: now,
                ..conn
            })
            &&& pinged == (ConnView { last_frame_received: now, ..conn })
            &&& answer.next is Continue
            &&& answer.actions.len() == 1
            &&& answer.actions[0] matches ActionView::Write(frame) && PingFrame::decoded(frame)
                == Ok::<PingFrame, H2Error>(PingFrame { ack: true, data })
        }),
{
    super::frame::law_ping_frame_round_trip(PingFrame { ack: true, data });
    super::frame::law_ping_frame_round_trip(PingFrame { ack: false, data });
}

/// Priorities and resets of the peer change nothing, its farewell ends the connection without an
/// error, and frames which it may not send end the connection. Every frame which is not part of a
/// header block shows that the peer is alive.
pub proof fn law_other_frames(conn: ConnView, frame: FrameView, now: Nanos)
    requires
        conn.pending_headers is None,
    ensures
        ({
            let (next, step) = conn.on_frame(frame, now);
            &&& next.last_frame_received == now
            &&& frame.frame_type == FrameType::Priority || frame.frame_type == FrameType::RstStream
                ==> next == (ConnView { last_frame_received: now, ..conn }) && step.actions.len()
                == 0 && step.next is Continue
            &&& frame.frame_type == FrameType::GoAway ==> step.actions.len() == 0 && step.next
                == NextView::Exit(Ok(()))
            &&& frame.frame_type == FrameType::PushPromise || frame.frame_type
                == FrameType::Continuation ==> step.actions.len() == 0 && step.next
                == NextView::Exit(Err(H2Error::Connection(ErrorCode::ProtocolError)))
        }),
{
}

/// Whether a step does nothing but to end the connection with the given error.
pub open spec fn ends_with(reaction: Reaction, err: H2Error) -> bool {
    reaction.1.actions.len() == 0 && reaction.1.next == NextView::Exit(Err(err))
}

/// A frame which can not be read ends the connection with the error that reading it gives. A headers
/// frame which has no room for its priority ends it at once.
pub proof fn law_unreadable_frame_ends_connection(conn: ConnView, frame: FrameView, now: Nanos)
    requires
        conn.pending_headers is None,
    ensures
        frame.frame_type == FrameType::Data ==> (DataFrameView::decoded(frame) matches Err(err)
            ==> ends_with(conn.on_frame(frame, now), err)),
        frame.frame_type == FrameType::Headers && HeadersFrameView::has_room(frame) ==> (
        HeadersFrameView::decoded(frame) matches Err(err) ==> ends_with(
            conn.on_frame(frame, now),
            err,
        )),
        frame.frame_type == FrameType::Headers && !HeadersFrameView::has_room(frame) ==> {
            &&& conn.on_frame(frame, now).1.actions.len() == 0
            &&& conn.on_frame(frame, now).1.next is Abort
        },
        frame.frame_type == FrameType::Settings ==> (SettingsFrame::decoded(frame) matches Err(err)
            ==> ends_with(conn.on_frame(frame, now), err)),
{
}

/// Settings which are out of range end the connection: with a protocol error for the frame size and
/// with a flow control error for the window.
pub proof fn law_unacceptable_settings_end_connection(
    conn: ConnView,
    frame: SettingsFrame,
    now: Nanos,
)
    requires
        conn.pending_headers is None,
        conn.remote_settings.wf(),
        !frame.ack,
    ensures
        frame.max_frame_size matches Some(size) && !(0x4000 <= size < 0x100_0000) ==> ends_with(
            conn.on_frame(frame.encoded(), now),
            H2Error::Connection(ErrorCode::ProtocolError),
        ),
        frame.max_frame_size is None && (frame.initial_window_size matches Some(size) && size
            >= 0x8000_0000) ==> ends_with(
            conn.on_frame(frame.encoded(), now),
            H2Error::Connection(ErrorCode::FlowControlError),
        ),
{
    super::frame::law_settings_frame_round_trip(frame);
    super::settings::law_announced_settings_are_taken_over(conn.remote_settings, frame);
}

/// What comes of a complete header block: if it can not be decoded, the connection ends with a
/// compression error, and if it describes no request, the stream is reset with a protocol error.
/// Either way no stream is opened.
#[verifier::spinoff_prover]
#[verifier::rlimit(30)]
pub proof fn law_bad_header_block(conn: ConnView, frame: HeadersFrameView, now: Nanos)
    requires
        conn.pending_headers is None,
        conn.block.len() == 0,
        !conn.pending_gracefull_shutdown,
        conn.config.h2_settings.max_concurrent_streams matches Some(max) ==> conn.open_streams
            < max,
        frame.stream % 2 == 1,
        frame.stream > conn.biggest_open_stream,
        !conn.streams.contains_key(frame.stream),
        frame.end_headers,
        frame.priority is None,
        frame.data.len() <= conn.block_max,
        super::hpack::bad_update(frame.data, 0) is None,
    ensures
        ({
            let (next, step) = conn.on_frame(frame.encoded(), now);
            match crate::foreign::decoded_headers(conn.blocks.push(frame.data)) {
                None => ends_with(
                    (next, step),
                    H2Error::Connection(ErrorCode::CompresssionError),
                ),
                Some(list) => super::headers::request_of(list) is Err ==> {
                    &&& step.next is Continue
                    &&& step.actions.len() == 1
                    &&& step.actions[0] matches ActionView::Write(reset) && resets(
                        reset,
                        frame.stream,
                        ErrorCode::ProtocolError,
                    )
                    &&& next.streams == conn.streams
                    &&& next.open_streams == conn.open_streams
                    &&& next.biggest_open_stream == conn.biggest_open_stream
                    &&& next.blocks == conn.blocks.push(frame.data)
                    &&& next.block.len() == 0
                },
            }
        }),
{
    super::frame::law_headers_frame_round_trip(frame);
    assert(conn.block + frame.data =~= frame.data);
    lemma_resets(frame.stream, ErrorCode::ProtocolError);
}

/// A header block with a table size update which can not be read is given up: the connection ends
/// with a compression error if already the part in front of the update can not be decoded, and else
/// at once.
pub proof fn law_unreadable_update_ends_connection(
    conn: ConnView,
    frame: HeadersFrameView,
    at: usize,
    now: Nanos,
)
    requires
        conn.pending_headers is None,
        conn.block.len() == 0,
        !conn.pending_gracefull_shutdown,
        conn.config.h2_settings.max_concurrent_streams matches Some(max) ==> conn.open_streams
            < max,
        frame.stream % 2 == 1,
        frame.stream > conn.biggest_open_stream,
        frame.end_headers,
        frame.priority is None,
        frame.data.len() <= conn.block_max,
        super::hpack::bad_update(frame.data, 0) == Some(at),
    ensures
        ({
            let (next, step) = conn.on_frame(frame.encoded(), now);
            &&& next.streams == conn.streams
            &&& step.actions.len() == 0
            &&& match crate::foreign::decoded_headers(
                conn.blocks.push(frame.data.take(at as int)),
            ) {
                None => step.next == NextView::Exit(
                    Err(H2Error::Connection(ErrorCode::CompresssionError)),
                ),
                Some(_) => step.next is Abort,
            }
        }),
{
    super::frame::law_headers_frame_round_trip(frame);
    assert(conn.block + frame.data =~= frame.data);
}

/// The biggest identifier never shrinks, and it only grows with a stream which is opened.
pub proof fn law_biggest_stream_never_shrinks(
    conn: ConnView,
    frame: FrameView,
    req: ConnectionReqView,
    after: After,
    ok: bool,
    now: Nanos,
)
    ensures
        conn.on_frame(frame, now).0.biggest_open_stream >= conn.biggest_open_stream,
        conn.on_request(req).0.biggest_open_stream == conn.biggest_open_stream,
        conn.delivered(after, ok).0.biggest_open_stream == conn.biggest_open_stream,
        conn.on_timer(now).0.biggest_open_stream == conn.biggest_open_stream,
        conn.on_shutdown(now).0.biggest_open_stream == conn.biggest_open_stream,
{
}

/// A window update of a stream which is not known changes nothing but that those who wait for some
/// of the global window may get it.
pub proof fn law_window_update_of_unknown_stream(
    conn: ConnView,
    id: u32,
    increment: u32,
    now: Nanos,
)
    requires
        conn.pending_headers is None,
        id != 0,
        !conn.streams.contains_key(id),
        increment < 0x8000_0000,
    ensures
        ({
            let update = WindowUpdateFrame { stream: id, window_size_increment: increment };
            let (next, step) = conn.on_frame(update.encoded(), now);
            let d = super::window::distributed(conn.streams, conn.global_window, conn.requests);
            &&& step.next is Continue
            &&& step.actions.len() == d.grants.len()
            &&& super::window::total(d.grants) + next.global_window == conn.global_window
            &&& next == (ConnView {
                last_frame_received: now,
                global_window: next.global_window,
                requests: d.waiting,
                ..conn
            })
        }),
{
    super::frame::law_window_update_frame_round_trip(
        WindowUpdateFrame { stream: id, window_size_increment: increment },
    );
    super::window::law_window_is_conserved(conn.streams, conn.global_window, conn.requests);
}

/// A stream which is gone when it should be told of its window is forgotten and reset, and then the
/// global window is handed out to those who wait for it.
#[verifier::spinoff_prover]
#[verifier::rlimit(30)]
pub proof fn law_gone_stream_frees_the_way(conn: ConnView, id: u32)
    requires
        id != 0,
        conn.streams.contains_key(id),
    ensures
        ({
            let (told, step) = conn.delivered(After::WindowUpdate(id), false);
            step.next matches NextView::Deliver(to, StreamReqView::Reset, after) && {
                let (gone, last) = told.delivered(after, false);
                let d = super::window::distributed(
                    conn.streams.remove(id),
                    conn.global_window,
                    conn.requests,
                );
                &&& to == id
                &&& gone.streams == conn.streams.remove(id)
                &&& gone.open_streams == conn.open_streams
                &&& last.next is Continue
                &&& last.actions.len() == 2 + d.grants.len()
                &&& last.actions[0] == ActionView::Forget(id)
                &&& last.actions[1] matches ActionView::Write(reset) && resets(
                    reset,
                    id,
                    ErrorCode::StreamClosed,
                )
                &&& forall|i: int|
                    0 <= i < d.grants.len() ==> last.actions[i + 2] == ActionView::Send(
                        (#[trigger] d.grants[i]).0,
                        StreamReqView::AvailableWindow(d.grants[i].1),
                    )
                &&& super::window::total(d.grants) + gone.global_window == conn.global_window
                &&& gone.requests == d.waiting
            }
        }),
{
    lemma_resets(id, ErrorCode::StreamClosed);
    let told = conn.delivered(After::WindowUpdate(id), false).0;
    assert(told.streams.remove(id) =~= conn.streams.remove(id));
    super::window::law_window_is_conserved(
        conn.streams.remove(id),
        conn.global_window,
        conn.requests,
    );
}

/// Only a header list with more than 6553 headers can be too long for a request.
pub proof fn law_only_long_lists_overflow(conn: ConnView, reaction: Reaction)
    ensures
        conn.may_overflow(reaction) ==> (crate::foreign::decoded_headers(
            reaction.0.blocks,
        ) matches Some(list) && list.len() > 6553),
{
}

/// A connection which shuts down goes on until its last stream is closed, whether the streams close
/// with an error or without one.
pub proof fn law_shutdown_waits_for_all_streams(conn: ConnView, id: u32, code: ErrorCode)
    requires
        conn.pending_gracefull_shutdown,
        conn.open_streams > 0,
        id != 0,
    ensures
        ({
            let (next, step) = conn.on_request(ConnectionReqView::StreamClosing(id, None));
            &&& next.open_streams == conn.open_streams - 1
            &&& step.actions.len() == 0
            &&& step.next == if conn.open_streams > 1 {
                NextView::Continue
            } else {
                NextView::Exit(Ok(()))
            }
        }),
        !conn.streams.contains_key(id) ==> {
            let (next, step) = conn.on_request(
                ConnectionReqView::StreamClosing(id, Some(H2Error::Stream(code))),
            );
            &&& next.open_streams == conn.open_streams - 1
            &&& step.actions.len() == 1
            &&& step.actions[0] matches ActionView::Write(reset) && resets(reset, id, code)
            &&& step.next == if conn.open_streams > 1 {
                NextView::Continue
            } else {
                NextView::Exit(Ok(()))
            }
        },
{
    lemma_resets(id, code);
}

/// What a stream can not mean ends the connection with an internal error: an error of the stream
/// zero, a window which gets out of range, and a stream which closes though none is open.
pub proof fn law_impossible_requests_end_connection(
    conn: ConnView,
    id: u32,
    amount: i32,
    code: ErrorCode,
)
    ensures
        ends_with(
            conn.on_request(ConnectionReqView::StreamClosing(0, Some(H2Error::Stream(code)))),
            H2Error::Connection(ErrorCode::InternalError),
        ),
        conn.open_streams == 0 ==> ends_with(
            conn.on_request(ConnectionReqView::StreamClosing(id, None)),
            H2Error::Connection(ErrorCode::InternalError),
        ),
        !(-0x8000_0000 <= conn.global_window + amount < 0x8000_0000) ==> ends_with(
            conn.on_request(ConnectionReqView::PutWindow(amount)),
            H2Error::Connection(ErrorCode::InternalError),
        ),
        amount < 0 || conn.peer_window + amount >= 0x8000_0000 ==> ends_with(
            conn.on_request(ConnectionReqView::UpdatePeerWindow(id, amount)),
            H2Error::Connection(ErrorCode::InternalError),
        ),
{
}

/// Nothing of the global window is lost with a stream: what the stream has left of it when it ends is
/// in the global window again, or with the streams which wait for it.
pub proof fn law_window_of_finished_stream_is_kept(
    conn: ConnView,
    stream: Stream,
    error: Option<H2Error>,
)
    requires
        stream.available_window > 0,
        conn.global_window + stream.available_window <= i32::MAX,
    ensures
        ({
            let (next, step) = conn.on_request(stream.finished(error).1[0]);
            let d = super::window::distributed(
                conn.streams,
                (conn.global_window + stream.available_window) as i32,
                conn.requests,
            );
            &&& step.next is Continue
            &&& step.actions.len() == d.grants.len()
            &&& super::window::total(d.grants) + next.global_window == conn.global_window
                + stream.available_window
        }),
{
    super::stream::law_finished_stream_keeps_nothing(stream, error);
    law_returned_window_is_kept(conn, stream.available_window);
}

} // verus!
