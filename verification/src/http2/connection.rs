//! The state of a connection and how it reacts to what happens.
//!
//! A [`Connection`] does not read, write or wait. It is told what happened and answers with a
//! [`Step`]: what has to be done, in order, and how to go on.

use vstd::prelude::*;

use super::error::{ErrorCode, H2Error, H2Result};
use super::frame::{
    ContinuationFrame, ContinuationFrameView, DataFrame, DataFrameView, Frame, FrameType, FrameView,
    GoAwayFrame, GoAwayFrameView, HeadersFrame, HeadersFrameView, PingFrame, PriorityFrame,
    RstStreamFrame, SettingsFrame, WindowUpdateFrame,
};
use super::headers::{request_from_headers, response_headers, split_block};
use super::hpack::find_bad_update;
use super::settings::{Settings, WINDOW_SIZE_MAX};
use super::stream::{
    ConnectionReq, ConnectionReqView, Stream, StreamHandle, StreamReq, StreamReqView, StreamState,
};
use super::window::{distribute, WindowReqs};
use crate::buffer::Buffer;
use crate::config::{Config, Nanos, DURATION_MAX};
use crate::foreign::{decode_block, encode_block, new_decoder, new_encoder, HeaderList};
use crate::message::{Request, RequestView};
use crate::response::Response;
use std::collections::HashMap;

verus! {

broadcast use vstd::std_specs::hash::group_hash_axioms;

/// The global window of both peers at the begin of a connection.
pub const INITIAL_WINDOW: i32 = 65_535;

/// Something that has to be done.
#[derive(Debug)]
pub enum Action {
    /// Write the frame. If that fails, the connection ends with a protocol error.
    Write(Frame),
    /// Tell the stream. If it is gone, the connection ends with [`StreamReq::undelivered`].
    Send(u32, StreamReq),
    /// Tell all streams about a change of their window. If one of them is gone, the connection ends
    /// with [`StreamReq::undelivered`].
    UpdateWindows(i32),
    /// Start a stream which handles the request. The last value tells whether there is no body.
    Open(Stream, Request, bool),
    /// The stream is not known any more.
    Forget(u32),
}

/// What an [`Action`] holds.
#[verifier::ext_equal]
pub enum ActionView {
    Write(FrameView),
    Send(u32, StreamReqView),
    UpdateWindows(i32),
    Open(Stream, RequestView, bool),
    Forget(u32),
}

impl View for Action {
    type V = ActionView;

    open spec fn view(&self) -> ActionView {
        match self {
            Action::Write(frame) => ActionView::Write(frame@),
            Action::Send(id, req) => ActionView::Send(*id, req@),
            Action::UpdateWindows(dif) => ActionView::UpdateWindows(*dif),
            Action::Open(stream, req, end) => ActionView::Open(*stream, req@, *end),
            Action::Forget(id) => ActionView::Forget(*id),
        }
    }
}

/// What a list of actions holds.
pub open spec fn action_views(actions: Seq<Action>) -> Seq<ActionView> {
    Seq::new(actions.len(), |i: int| actions[i]@)
}

/// What is left to do after a stream was reset.
#[derive(Debug, Clone, Copy, PartialEq, Eq, Structural)]
pub enum Rest {
    /// Nothing.
    Nothing,
    /// The stream is to be counted as closed.
    CloseStream(u32),
    /// The global window is to be distributed.
    Distribute,
}

/// What the connection was about when it asked for a message to be delivered.
#[derive(Debug, Clone, Copy, PartialEq, Eq, Structural)]
pub enum After {
    /// The window of the stream changed.
    WindowUpdate(u32),
    /// The stream gets reset with the given code.
    Reset(u32, ErrorCode, Rest),
}

/// How to go on.
#[derive(Debug)]
pub enum Next {
    /// Wait for the next event.
    Continue,
    /// Stop to serve the connection. See [`Connection::go_away`].
    Exit(H2Result<()>),
    /// Tell the stream, and hand the outcome to [`Connection::delivered`].
    Deliver(u32, StreamReq, After),
    /// Stop at once, without another word. The peer sent something that can not be dealt with.
    Abort,
}

/// What a [`Next`] holds.
#[verifier::ext_equal]
pub enum NextView {
    Continue,
    Exit(H2Result<()>),
    Deliver(u32, StreamReqView, After),
    Abort,
}

impl View for Next {
    type V = NextView;

    open spec fn view(&self) -> NextView {
        match self {
            Next::Continue => NextView::Continue,
            Next::Exit(result) => NextView::Exit(*result),
            Next::Deliver(id, req, after) => NextView::Deliver(*id, req@, *after),
            Next::Abort => NextView::Abort,
        }
    }
}

/// The answer of a connection to an event.
#[derive(Debug)]
pub struct Step {
    pub actions: Vec<Action>,
    pub next: Next,
}

/// What a [`Step`] holds.
#[verifier::ext_equal]
pub struct StepView {
    pub actions: Seq<ActionView>,
    pub next: NextView,
}

impl View for Step {
    type V = StepView;

    open spec fn view(&self) -> StepView {
        StepView { actions: action_views(self.actions@), next: self.next@ }
    }
}

impl StepView {
    /// Nothing to do but to go on in the given way.
    pub open spec fn of(next: NextView) -> StepView {
        StepView { actions: Seq::empty(), next }
    }

    /// Nothing to do.
    pub open spec fn nothing() -> StepView {
        Self::of(NextView::Continue)
    }

    /// The connection is broken.
    pub open spec fn fail(code: ErrorCode) -> StepView {
        Self::of(NextView::Exit(Err(H2Error::Connection(code))))
    }

    /// A frame to be written.
    pub open spec fn write(frame: FrameView) -> StepView {
        StepView { actions: seq![ActionView::Write(frame)], next: NextView::Continue }
    }

    /// The step with an action in front of its other ones.
    pub open spec fn after(self, action: ActionView) -> StepView {
        StepView { actions: seq![action] + self.actions, ..self }
    }
}

impl Step {
    /// Nothing to do but to go on in the given way.
    fn of(next: Next) -> (step: Self)
        ensures
            step@ == StepView::of(next@),
    {
        let step = Step { actions: Vec::new(), next };
        proof {
            assert(action_views(step.actions@) =~= Seq::empty());
        }

        step
    }

    /// Nothing to do.
    fn nothing() -> (step: Self)
        ensures
            step@ == StepView::nothing(),
    {
        Self::of(Next::Continue)
    }

    /// The connection is broken.
    fn fail(code: ErrorCode) -> (step: Self)
        ensures
            step@ == StepView::fail(code),
    {
        Self::of(Next::Exit(Err(H2Error::Connection(code))))
    }

    /// The connection ends with an error.
    fn error(err: H2Error) -> (step: Self)
        ensures
            step@ == StepView::of(NextView::Exit(Err(err))),
    {
        Self::of(Next::Exit(Err(err)))
    }

    /// An action to be performed.
    fn action(action: Action) -> (step: Self)
        ensures
            step@ == StepView::nothing().after(action@),
    {
        let mut actions: Vec<Action> = Vec::new();
        actions.push(action);
        let step = Step { actions, next: Next::Continue };
        proof {
            assert(step@.actions =~= StepView::nothing().after(action@).actions);
        }

        step
    }

    /// A frame to be written.
    fn write(frame: Frame) -> (step: Self)
        ensures
            step@ == StepView::write(frame@),
    {
        let step = Self::action(Action::Write(frame));
        proof {
            assert(step@ =~= StepView::write(frame@));
        }

        step
    }

    /// Puts an action in front of the other ones.
    fn after(self, action: Action) -> (step: Self)
        ensures
            step@ == self@.after(action@),
    {
        let Step { actions: mut rest, next } = self;
        let ghost before = rest@;
        let mut actions: Vec<Action> = Vec::new();
        actions.push(action);
        actions.append(&mut rest);
        let step = Step { actions, next };
        proof {
            assert(actions@ =~= seq![action] + before);
            assert(action_views(actions@) =~= seq![action@] + action_views(before));
        }

        step
    }
}

/// A HTTP/2 connection.
pub struct Connection {
    pub config: Config,
    pub remote_settings: Settings,
    pub local_settings: Settings,
    /// When the last frame arrived.
    pub last_frame_received: Nanos,
    /// Until when the settings which were sent have to be acknowledged, in the order in which they
    /// were sent.
    pub settings_ack_timeouts: Vec<Nanos>,
    /// Until when the ping has to be acknowledged.
    pub ping_ack_timeout: Option<Nanos>,
    /// The part of a header block which was received so far.
    pub header_buffer: Buffer,
    pub header_decoder: hpack::Decoder<'static>,
    pub header_encoder: hpack::Encoder<'static>,
    /// The stream whose header block is not complete yet, and whether it has no body.
    pub pending_headers: Option<(u32, bool)>,
    pub streams: HashMap<u32, StreamHandle>,
    pub biggest_open_stream: u32,
    pub open_streams: u32,
    /// How much may still be sent.
    pub global_window: i32,
    /// How much the peer may still send.
    pub peer_window: i32,
    /// The streams which wait for some of the global window.
    pub pending_window_req: Vec<(u32, i32)>,
    pub pending_gracefull_shutdown: bool,
}

/// What a [`Connection`] holds.
#[verifier::ext_equal]
pub struct ConnView {
    pub config: Config,
    pub remote_settings: Settings,
    pub local_settings: Settings,
    pub last_frame_received: Nanos,
    pub settings_ack_timeouts: Seq<Nanos>,
    pub ping_ack_timeout: Option<Nanos>,
    /// The part of a header block which was received so far.
    pub block: Seq<u8>,
    /// The biggest header block which can be received.
    pub block_max: nat,
    /// The header blocks which were decoded so far.
    pub blocks: Seq<Seq<u8>>,
    /// The header lists which were encoded so far.
    pub lists: Seq<HeaderList>,
    pub pending_headers: Option<(u32, bool)>,
    pub streams: Map<u32, StreamHandle>,
    pub biggest_open_stream: u32,
    pub open_streams: u32,
    pub global_window: i32,
    pub peer_window: i32,
    pub requests: WindowReqs,
    pub pending_gracefull_shutdown: bool,
}

impl View for Connection {
    type V = ConnView;

    open spec fn view(&self) -> ConnView {
        ConnView {
            config: self.config,
            remote_settings: self.remote_settings,
            local_settings: self.local_settings,
            last_frame_received: self.last_frame_received,
            settings_ack_timeouts: self.settings_ack_timeouts@,
            ping_ack_timeout: self.ping_ack_timeout,
            block: self.header_buffer@,
            block_max: self.header_buffer.storage().len(),
            blocks: crate::foreign::decoder_blocks(self.header_decoder),
            lists: crate::foreign::encoder_lists(self.header_encoder),
            pending_headers: self.pending_headers,
            streams: self.streams@,
            biggest_open_stream: self.biggest_open_stream,
            open_streams: self.open_streams,
            global_window: self.global_window,
            peer_window: self.peer_window,
            requests: self.pending_window_req@,
            pending_gracefull_shutdown: self.pending_gracefull_shutdown,
        }
    }
}

/// The state of a connection after an event and the answer to it.
pub type Reaction = (ConnView, StepView);

/// The messages about the granted parts of the global window.
pub open spec fn grant_actions(grants: WindowReqs) -> Seq<ActionView> {
    Seq::new(
        grants.len(),
        |i: int| ActionView::Send(grants[i].0, StreamReqView::AvailableWindow(grants[i].1)),
    )
}

/// The frames as actions.
pub open spec fn write_actions(frames: Seq<FrameView>) -> Seq<ActionView> {
    Seq::new(frames.len(), |i: int| ActionView::Write(frames[i]))
}

/// The frame with which a stream is reset.
pub open spec fn reset_frame(id: u32, code: ErrorCode) -> FrameView {
    RstStreamFrame { stream: id, error_code: Some(code) }.encoded()
}

impl ConnView {
    /// A new connection.
    pub open spec fn initial(config: Config, now: Nanos) -> ConnView {
        ConnView {
            config,
            remote_settings: Settings {
                header_table_size: 4096,
                enable_push: true,
                max_concurrent_streams: None,
                initial_window_size: 65_535,
                max_frame_size: 16_384,
                max_header_list_size: None,
            },
            local_settings: config.h2_settings,
            last_frame_received: now,
            settings_ack_timeouts: Seq::empty(),
            ping_ack_timeout: None,
            block: Seq::empty(),
            block_max: config.request_header_buf_size as nat,
            blocks: Seq::empty(),
            lists: Seq::empty(),
            pending_headers: None,
            streams: Map::empty(),
            biggest_open_stream: 0,
            open_streams: 0,
            global_window: INITIAL_WINDOW,
            peer_window: INITIAL_WINDOW,
            requests: Seq::empty(),
            pending_gracefull_shutdown: false,
        }
    }

    /// The connection after its first frames were written.
    pub open spec fn opened(self) -> ConnView {
        ConnView { peer_window: self.config.h2_initial_global_window_size, ..self }
    }

    /// Hands out as much of the global window as possible.
    pub open spec fn distribute_window(self) -> Reaction {
        let d = super::window::distributed(self.streams, self.global_window, self.requests);
        (
            ConnView { global_window: d.window, requests: d.waiting, ..self },
            StepView { actions: grant_actions(d.grants), next: NextView::Continue },
        )
    }

    /// Counts a stream as closed.
    pub open spec fn close_stream(self, id: u32) -> Reaction {
        if self.open_streams == 0 {
            (self, StepView::fail(ErrorCode::InternalError))
        } else {
            let open_streams = (self.open_streams - 1) as u32;
            if self.pending_gracefull_shutdown && open_streams == 0 {
                (ConnView { open_streams, ..self }, StepView::of(NextView::Exit(Ok(()))))
            } else if self.streams.contains_key(id) {
                (
                    ConnView {
                        open_streams,
                        streams: self.streams.insert(id, StreamHandle { closed: true }),
                        ..self
                    },
                    StepView::nothing(),
                )
            } else {
                (ConnView { open_streams, ..self }, StepView::nothing())
            }
        }
    }

    /// Does what is left to do after a stream was reset.
    pub open spec fn finish_reset(self, rest: Rest) -> Reaction {
        match rest {
            Rest::Nothing => (self, StepView::nothing()),
            Rest::CloseStream(id) => self.close_stream(id),
            Rest::Distribute => self.distribute_window(),
        }
    }

    /// Tells the peer that a stream is reset, and goes on.
    pub open spec fn send_reset(self, id: u32, code: ErrorCode, rest: Rest) -> Reaction {
        let (conn, step) = self.finish_reset(rest);
        (conn, step.after(ActionView::Write(reset_frame(id, code))))
    }

    /// An error either relates to a single stream or the entire connection. If it does only relate
    /// to a single stream, this stream gets reset.
    pub open spec fn stream_error(self, err: H2Error, id: u32, rest: Rest) -> Reaction {
        match err {
            H2Error::Connection(_) => (self, StepView::of(NextView::Exit(Err(err)))),
            H2Error::Stream(code) => if id == 0 {
                (self, StepView::fail(ErrorCode::InternalError))
            } else if self.streams.contains_key(id) {
                (
                    ConnView {
                        streams: self.streams.insert(id, StreamHandle { closed: true }),
                        ..self
                    },
                    StepView::of(
                        NextView::Deliver(
                            id,
                            StreamReqView::Reset,
                            After::Reset(id, code, rest),
                        ),
                    ),
                )
            } else {
                self.send_reset(id, code, rest)
            },
        }
    }

    /// Goes on after a message was delivered to a stream, or could not be delivered.
    pub open spec fn delivered(self, after: After, ok: bool) -> Reaction {
        match after {
            After::WindowUpdate(id) => if ok {
                self.distribute_window()
            } else {
                self.stream_error(H2Error::Stream(ErrorCode::StreamClosed), id, Rest::Distribute)
            },
            After::Reset(id, code, rest) => if ok {
                self.send_reset(id, code, rest)
            } else {
                let (conn, step) = ConnView {
                    streams: self.streams.remove(id),
                    ..self
                }.send_reset(id, code, rest);
                (conn, step.after(ActionView::Forget(id)))
            },
        }
    }

    /// The global window grows or shrinks. The answer is an error if it gets out of range.
    pub open spec fn update_global_window(self, amount: i32) -> Reaction {
        match super::stream::window_sum(self.global_window, amount) {
            Some(global_window) => ConnView { global_window, ..self }.distribute_window(),
            None => (self, StepView::fail(ErrorCode::InternalError)),
        }
    }

    /// The peer may send more data, both on the stream and on the connection.
    pub open spec fn update_peer_window(self, id: u32, amount: i32) -> Reaction {
        match super::stream::window_sum(self.peer_window, amount) {
            None => (self, StepView::fail(ErrorCode::InternalError)),
            Some(peer_window) => {
                let conn = ConnView { peer_window, ..self };
                if amount < 0 {
                    (conn, StepView::fail(ErrorCode::InternalError))
                } else {
                    let global = WindowUpdateFrame {
                        stream: 0,
                        window_size_increment: amount as u32,
                    };
                    let local = WindowUpdateFrame {
                        stream: id,
                        window_size_increment: amount as u32,
                    };
                    (
                        conn,
                        StepView::write(local.encoded()).after(ActionView::Write(global.encoded())),
                    )
                }
            },
        }
    }

    /// Handles a message of a stream.
    pub open spec fn on_request(self, req: ConnectionReqView) -> Reaction {
        match req {
            ConnectionReqView::Frame(frame) => (self, StepView::write(frame)),
            ConnectionReqView::Response(resp, id, end_stream) => {
                let lists = self.lists.push(resp.header_list());
                let block = crate::foreign::encoded_block(lists);
                (
                    ConnView { lists, ..self },
                    StepView {
                        actions: write_actions(
                            super::headers::block_frames(id, end_stream, block),
                        ),
                        next: NextView::Continue,
                    },
                )
            },
            ConnectionReqView::GetWindow(id, amount) => ConnView {
                requests: self.requests.push((id, amount)),
                ..self
            }.distribute_window(),
            ConnectionReqView::PutWindow(amount) => self.update_global_window(amount),
            ConnectionReqView::UpdatePeerWindow(id, amount) => self.update_peer_window(id, amount),
            ConnectionReqView::StreamClosing(id, error) => match error {
                Some(err) => self.stream_error(err, id, Rest::CloseStream(id)),
                None => self.close_stream(id),
            },
            ConnectionReqView::StreamClosed(id) => (
                ConnView { streams: self.streams.remove(id), ..self },
                StepView::nothing().after(ActionView::Forget(id)),
            ),
        }
    }

    /// The connection after settings were sent, which have to be acknowledged in time. Those which
    /// were sent before still have to be acknowledged in their time.
    pub open spec fn settings_sent(self, now: Nanos) -> ConnView {
        ConnView {
            settings_ack_timeouts: self.settings_ack_timeouts.push(
                (now + self.config.h2_settings_timeout) as u128,
            ),
            ..self
        }
    }

    /// Whether some settings were not acknowledged in time.
    pub open spec fn settings_late(self, now: Nanos) -> bool {
        exists|i: int|
            0 <= i < self.settings_ack_timeouts.len() && now > #[trigger] self.settings_ack_timeouts[i]
    }

    /// The server shuts down. The peer is told not to open new streams, unless there are none
    /// anyway.
    pub open spec fn on_shutdown(self, now: Nanos) -> Reaction {
        if self.open_streams == 0 {
            (self, StepView::of(NextView::Exit(Ok(()))))
        } else {
            let frame = SettingsFrame {
                max_concurrent_streams: Some(0),
                ..SettingsFrame::listing(false, Seq::empty())
            };
            (
                ConnView { pending_gracefull_shutdown: true, ..self.settings_sent(now) },
                StepView::write(frame.encoded()),
            )
        }
    }

    /// Checks all timeouts. There is at most one ping which is not acknowledged yet.
    pub open spec fn on_timer(self, now: Nanos) -> Reaction {
        if self.settings_late(now) {
            (self, StepView::fail(ErrorCode::SettingsTimeout))
        } else if let Some(timeout) = self.ping_ack_timeout {
            if now > timeout {
                (self, StepView::fail(ErrorCode::ProtocolError))
            } else {
                (self, StepView::nothing())
            }
        } else if now > self.last_frame_received + self.config.h2_ping_interval {
            let frame = PingFrame { ack: false, data: self.config.h2_ping_payload };
            (
                ConnView {
                    ping_ack_timeout: Some((now + self.config.h2_ping_timeout) as u128),
                    ..self
                },
                StepView::write(frame.encoded()),
            )
        } else {
            (self, StepView::nothing())
        }
    }

    /// Handles body data. It has to fit in the window which the peer was granted.
    pub open spec fn on_data(self, frame: DataFrameView) -> Reaction {
        if !self.streams.contains_key(frame.stream) || frame.data.len() > i32::MAX {
            (self, StepView::fail(ErrorCode::ProtocolError))
        } else if frame.data.len() > self.peer_window {
            (self, StepView::fail(ErrorCode::FlowControlError))
        } else {
            (
                ConnView { peer_window: (self.peer_window - frame.data.len()) as i32, ..self },
                StepView::nothing().after(
                    ActionView::Send(frame.stream, StreamReqView::RequestBody(frame)),
                ),
            )
        }
    }

    /// Takes in a part of a header block.
    pub open spec fn on_block_part(
        self,
        stream: u32,
        end_stream: bool,
        end_headers: bool,
        data: Seq<u8>,
    ) -> Reaction {
        let room = self.block_max - self.block.len();
        if data.len() > room {
            (
                ConnView { block: self.block + data.take(room), ..self },
                StepView::fail(ErrorCode::ProtocolError),
            )
        } else {
            let conn = ConnView { block: self.block + data, ..self };
            if end_headers {
                ConnView { pending_headers: None, ..conn }.on_block(stream, end_stream)
            } else {
                (
                    ConnView { pending_headers: Some((stream, end_stream)), ..conn },
                    StepView::nothing(),
                )
            }
        }
    }

    /// Whether a new stream is refused, because of a shutdown or because there are too many.
    pub open spec fn refuses_streams(self) -> bool {
        ||| self.pending_gracefull_shutdown
        ||| self.config.h2_settings.max_concurrent_streams matches Some(max) && self.open_streams
            >= max
    }

    /// The connection after its header block is taken out.
    pub open spec fn block_taken(self) -> ConnView {
        ConnView { block: Seq::empty(), ..self }
    }

    /// The connection after a block was decoded.
    pub open spec fn block_decoded(self, block: Seq<u8>) -> ConnView {
        ConnView { blocks: self.blocks.push(block), ..self }
    }

    /// Handles a complete header block, which opens a stream.
    pub open spec fn on_block(self, stream: u32, end_stream: bool) -> Reaction {
        let refused = H2Error::Stream(ErrorCode::RefusedStream);
        let undecodable = StepView::fail(ErrorCode::CompresssionError);
        if self.refuses_streams() {
            self.block_taken().stream_error(refused, stream, Rest::Nothing)
        } else {
            match super::hpack::bad_update(self.block, 0) {
                Some(at) => {
                    let conn = self.block_decoded(self.block.take(at as int));
                    match crate::foreign::decoded_headers(conn.blocks) {
                        None => (conn, undecodable),
                        Some(_) => (conn, StepView::of(NextView::Abort)),
                    }
                },
                None => {
                    let conn = self.block_decoded(self.block);
                    match crate::foreign::decoded_headers(conn.blocks) {
                        None => (conn, undecodable),
                        Some(list) => conn.block_taken().on_header_list(list, stream, end_stream),
                    }
                },
            }
        }
    }

    /// Handles a complete header list, which opens a stream.
    pub open spec fn on_header_list(
        self,
        list: HeaderList,
        stream: u32,
        end_stream: bool,
    ) -> Reaction {
        match super::headers::request_of(list) {
            Err(err) => self.stream_error(err, stream, Rest::Nothing),
            Ok(req) => self.open(req, stream, end_stream),
        }
    }

    /// Opens a stream for a request.
    pub open spec fn open(self, req: RequestView, stream: u32, end_stream: bool) -> Reaction {
        let conn = ConnView {
            biggest_open_stream: if stream > self.biggest_open_stream {
                stream
            } else {
                self.biggest_open_stream
            },
            ..self
        };
        if self.remote_settings.initial_window_size > WINDOW_SIZE_MAX
            || self.local_settings.initial_window_size > WINDOW_SIZE_MAX {
            (self, StepView::fail(ErrorCode::ProtocolError))
        } else if self.open_streams == u32::MAX {
            (conn, StepView::fail(ErrorCode::InternalError))
        } else {
            let opened = Stream {
                id: stream,
                state: StreamState::Open,
                available_window: 0,
                window: self.remote_settings.initial_window_size as i32,
                peer_window: self.local_settings.initial_window_size as i32,
                has_body: false,
            };
            (
                ConnView {
                    open_streams: (self.open_streams + 1) as u32,
                    streams: self.streams.insert(stream, StreamHandle { closed: false }),
                    ..conn
                },
                StepView::nothing().after(ActionView::Open(opened, req, end_stream)),
            )
        }
    }

    /// Handles the begin of a header block.
    pub open spec fn on_headers(self, frame: HeadersFrameView) -> Reaction {
        if frame.stream % 2 == 0 || !self.streams.contains_key(frame.stream)
            && self.biggest_open_stream >= frame.stream {
            (self, StepView::fail(ErrorCode::ProtocolError))
        } else {
            self.on_block_part(frame.stream, frame.end_stream, frame.end_headers, frame.data)
        }
    }

    /// Handles the frame behind an incomplete header block.
    pub open spec fn on_continuation(
        self,
        frame: FrameView,
        stream: u32,
        end_stream: bool,
    ) -> Reaction {
        if frame.frame_type != FrameType::Continuation {
            (self, StepView::fail(ErrorCode::ProtocolError))
        } else {
            match ContinuationFrameView::decoded(frame) {
                Err(err) => (self, StepView::of(NextView::Exit(Err(err)))),
                Ok(frame) => if frame.stream != stream {
                    (self, StepView::fail(ErrorCode::ProtocolError))
                } else {
                    self.on_block_part(stream, end_stream, frame.end_headers, frame.data)
                },
            }
        }
    }

    /// Handles the settings of the peer, or an acknowledgement of the own ones.
    pub open spec fn on_settings(self, frame: SettingsFrame) -> Reaction {
        if frame.ack {
            (
                ConnView {
                    settings_ack_timeouts: if self.settings_ack_timeouts.len() > 0 {
                        self.settings_ack_timeouts.skip(1)
                    } else {
                        Seq::empty()
                    },
                    ..self
                },
                StepView::nothing(),
            )
        } else {
            let (remote_settings, dif) = self.remote_settings.applied(frame);
            let conn = ConnView { remote_settings, ..self };
            match dif {
                Err(err) => (conn, StepView::of(NextView::Exit(Err(err)))),
                Ok(dif) => {
                    let ack = SettingsFrame::listing(true, Seq::empty());
                    (
                        conn,
                        StepView::write(ack.encoded()).after(ActionView::UpdateWindows(dif)),
                    )
                },
            }
        }
    }

    /// Answers a ping, or takes the answer to the own one.
    pub open spec fn on_ping(self, frame: PingFrame) -> Reaction {
        if !frame.ack {
            (self, StepView::write(PingFrame { ack: true, data: frame.data }.encoded()))
        } else if frame.data != self.config.h2_ping_payload {
            (self, StepView::fail(ErrorCode::ProtocolError))
        } else {
            (ConnView { ping_ack_timeout: None, ..self }, StepView::nothing())
        }
    }

    /// The peer accepts more data.
    pub open spec fn on_window_update(self, frame: WindowUpdateFrame) -> Reaction {
        let amount = frame.window_size_increment as i32;
        if frame.stream == 0 {
            self.update_global_window(amount)
        } else if self.streams.contains_key(frame.stream) {
            (
                self,
                StepView::of(
                    NextView::Deliver(
                        frame.stream,
                        StreamReqView::WindowUpdate(amount),
                        After::WindowUpdate(frame.stream),
                    ),
                ),
            )
        } else {
            self.distribute_window()
        }
    }

    /// Handles a frame behind which no header block is incomplete.
    pub open spec fn on_regular_frame(self, frame: FrameView) -> Reaction {
        match frame.frame_type {
            FrameType::Data => match DataFrameView::decoded(frame) {
                Err(err) => (self, StepView::of(NextView::Exit(Err(err)))),
                Ok(frame) => self.on_data(frame),
            },
            FrameType::Headers => if !HeadersFrameView::has_room(frame) {
                (self, StepView::of(NextView::Abort))
            } else {
                match HeadersFrameView::decoded(frame) {
                    Err(err) => (self, StepView::of(NextView::Exit(Err(err)))),
                    Ok(frame) => self.on_headers(frame),
                }
            },
            FrameType::Priority => (self, StepView::nothing()),
            FrameType::RstStream => (self, StepView::nothing()),
            FrameType::Settings => match SettingsFrame::decoded(frame) {
                Err(err) => (self, StepView::of(NextView::Exit(Err(err)))),
                Ok(frame) => self.on_settings(frame),
            },
            FrameType::PushPromise => (self, StepView::fail(ErrorCode::ProtocolError)),
            FrameType::Ping => match PingFrame::decoded(frame) {
                Err(err) => (self, StepView::of(NextView::Exit(Err(err)))),
                Ok(frame) => self.on_ping(frame),
            },
            FrameType::GoAway => (self, StepView::of(NextView::Exit(Ok(())))),
            FrameType::WindowUpdate => match WindowUpdateFrame::decoded(frame) {
                Err(err) => (self, StepView::of(NextView::Exit(Err(err)))),
                Ok(frame) => self.on_window_update(frame),
            },
            FrameType::Continuation => (self, StepView::fail(ErrorCode::ProtocolError)),
        }
    }

    /// Handles a frame which was received.
    pub open spec fn on_frame(self, frame: FrameView, now: Nanos) -> Reaction {
        match self.pending_headers {
            Some((stream, end_stream)) => self.on_continuation(frame, stream, end_stream),
            None => ConnView { last_frame_received: now, ..self }.on_regular_frame(frame),
        }
    }

    /// Whether a frame completes a header list which is so long that there may be no room for it.
    pub open spec fn may_overflow(self, reaction: Reaction) -> bool {
        &&& reaction.0.blocks.len() == self.blocks.len() + 1
        &&& crate::foreign::decoded_headers(reaction.0.blocks) matches Some(list)
        &&& list.len() > crate::foreign::FIELDS_GUARANTEED
    }

    /// The frame with which the connection ends.
    pub open spec fn go_away(self, result: H2Result<()>) -> FrameView {
        GoAwayFrameView {
            last_stream_id: self.biggest_open_stream,
            error_code: Some(
                match result {
                    Ok(()) => ErrorCode::NoError,
                    Err(H2Error::Stream(code)) => code,
                    Err(H2Error::Connection(code)) => code,
                },
            ),
            debug_data: Seq::empty(),
        }.encoded()
    }

    /// The frames with which the connection begins.
    pub open spec fn opening_frames(self) -> Seq<FrameView> {
        let settings = SettingsFrame {
            ack: false,
            header_table_size: Some(self.local_settings.header_table_size),
            enable_push: Some(self.local_settings.enable_push),
            max_concurrent_streams: self.local_settings.max_concurrent_streams,
            initial_window_size: Some(self.local_settings.initial_window_size),
            max_frame_size: Some(self.local_settings.max_frame_size),
            max_header_list_size: self.local_settings.max_header_list_size,
        };
        let size = self.config.h2_initial_global_window_size;
        if size > INITIAL_WINDOW {
            let update = WindowUpdateFrame {
                stream: 0,
                window_size_increment: (size - INITIAL_WINDOW) as u32,
            };
            seq![settings.encoded(), update.encoded()]
        } else {
            seq![settings.encoded()]
        }
    }
}

impl Connection {
    /// The buffer is intact and all times are in range.
    pub open spec fn wf(&self) -> bool {
        &&& self.header_buffer.wf()
        &&& self.last_frame_received <= DURATION_MAX
        &&& self.config.h2_settings_timeout <= DURATION_MAX
        &&& self.config.h2_ping_interval <= DURATION_MAX
        &&& self.config.h2_ping_timeout <= DURATION_MAX
    }

    /// A new connection. An old buffer is used again, if there is one.
    pub fn new(config: Config, recycled: Option<Buffer>, now: Nanos) -> (conn: Self)
        requires
            now <= DURATION_MAX,
            config.h2_settings_timeout <= DURATION_MAX,
            config.h2_ping_interval <= DURATION_MAX,
            config.h2_ping_timeout <= DURATION_MAX,
        ensures
            conn.wf(),
            conn@ == ConnView::initial(config, now),
    {
        let header_buffer: Buffer = match recycled {
            Some(mut buffer) => {
                buffer.set_capacity(config.request_header_buf_size);

                buffer
            },
            None => Buffer::with_capacity(config.request_header_buf_size),
        };

        Connection {
            config,
            remote_settings: Settings::default(),
            local_settings: config.h2_settings,
            last_frame_received: now,
            settings_ack_timeouts: Vec::new(),
            ping_ack_timeout: None,
            header_buffer,
            header_decoder: new_decoder(),
            header_encoder: new_encoder(),
            pending_headers: None,
            streams: HashMap::new(),
            biggest_open_stream: 0,
            open_streams: 0,
            global_window: INITIAL_WINDOW,
            peer_window: INITIAL_WINDOW,
            pending_window_req: Vec::with_capacity(100),
            pending_gracefull_shutdown: false,
        }
    }

    /// The frames to be written before the first frame is read, and whether the connection is
    /// served at all. It is not if the configured window is smaller than the protocol allows.
    pub fn opening(&mut self) -> (ret: (Vec<Frame>, bool))
        requires
            old(self).wf(),
        ensures
            final(self).wf(),
            super::headers::frame_views(ret.0@) == old(self)@.opening_frames(),
            ret.1 == (old(self).config.h2_initial_global_window_size >= INITIAL_WINDOW),
            final(self)@ == old(self)@.opened(),
    {
        let mut frames: Vec<Frame> = Vec::new();
        // Send the initial settings frame.
        let settings: SettingsFrame = SettingsFrame::from(self.local_settings);
        frames.push(Frame::from(settings));
        // Send an initial global window update frame, if necessary.
        let size: i32 = self.config.h2_initial_global_window_size;
        self.peer_window = size;
        if size > INITIAL_WINDOW {
            let window_size_increment: u32 = (size - INITIAL_WINDOW) as u32;
            let update = WindowUpdateFrame { stream: 0, window_size_increment };
            frames.push(Frame::from(update));
        }
        proof {
            assert(super::headers::frame_views(frames@) =~= old(self)@.opening_frames());
        }

        (frames, size >= INITIAL_WINDOW)
    }

    /// Notes that the settings were sent and have to be acknowledged in time.
    pub fn opened(&mut self, now: Nanos)
        requires
            old(self).wf(),
            now <= DURATION_MAX,
        ensures
            final(self).wf(),
            final(self)@ == old(self)@.settings_sent(now),
    {
        self.settings_ack_timeouts.push(now + self.config.h2_settings_timeout);
    }

    /// The frame to be written at the end of the connection.
    pub fn go_away(&self, result: H2Result<()>) -> (frame: Frame)
        ensures
            frame@ == self@.go_away(result),
    {
        let error_code: ErrorCode = match result {
            Ok(()) => ErrorCode::NoError,
            Err(err) => err.into_inner(),
        };
        let frame = GoAwayFrame {
            last_stream_id: self.biggest_open_stream,
            error_code: Some(error_code),
            debug_data: Vec::new(),
        };
        proof {
            assert(frame@.debug_data =~= Seq::empty());
        }

        Frame::from(frame)
    }

    /// Hands out as much of the global window as possible.
    fn distribute_window(&mut self) -> (step: Step)
        requires
            old(self).wf(),
        ensures
            final(self).wf(),
            (final(self)@, step@) == old(self)@.distribute_window(),
    {
        let grants: Vec<(u32, i32)> = distribute(
            &self.streams,
            &mut self.global_window,
            &mut self.pending_window_req,
        );
        let mut actions: Vec<Action> = Vec::new();
        let mut i: usize = 0;
        while i < grants.len()
            invariant
                i <= grants@.len(),
                action_views(actions@) == grant_actions(grants@.take(i as int)),
            decreases grants@.len() - i,
        {
            let (id, amount): (u32, i32) = grants[i];
            let ghost before = actions@;
            let handle = StreamHandle { closed: false };
            let action = Action::Send(id, handle.give_from_global_window(amount));
            actions.push(action);
            proof {
                assert(actions@ =~= before.push(action));
                assert(action_views(actions@) =~= action_views(before).push(action@));
                assert(grant_actions(grants@.take(i + 1)) =~= grant_actions(
                    grants@.take(i as int),
                ).push(action@));
            }
            i = i + 1;
        }
        proof {
            assert(grants@.take(i as int) =~= grants@);
        }

        Step { actions, next: Next::Continue }
    }

    /// Counts a stream as closed.
    fn close_stream(&mut self, id: u32) -> (step: Step)
        requires
            old(self).wf(),
        ensures
            final(self).wf(),
            (final(self)@, step@) == old(self)@.close_stream(id),
    {
        if self.open_streams == 0 {
            return Step::fail(ErrorCode::InternalError);
        }
        self.open_streams = self.open_streams - 1;
        if self.pending_gracefull_shutdown && self.open_streams == 0 {
            return Step::of(Next::Exit(Ok(())));
        }
        if self.streams.contains_key(&id) {
            self.streams.insert(id, StreamHandle { closed: true });
        }

        Step::nothing()
    }

    /// Does what is left to do after a stream was reset.
    fn finish_reset(&mut self, rest: Rest) -> (step: Step)
        requires
            old(self).wf(),
        ensures
            final(self).wf(),
            (final(self)@, step@) == old(self)@.finish_reset(rest),
    {
        match rest {
            Rest::Nothing => Step::nothing(),
            Rest::CloseStream(id) => self.close_stream(id),
            Rest::Distribute => self.distribute_window(),
        }
    }

    /// Tells the peer that a stream is reset, and goes on.
    fn send_reset(&mut self, id: u32, code: ErrorCode, rest: Rest) -> (step: Step)
        requires
            old(self).wf(),
        ensures
            final(self).wf(),
            (final(self)@, step@) == old(self)@.send_reset(id, code, rest),
    {
        let frame = RstStreamFrame { stream: id, error_code: Some(code) };
        let step = self.finish_reset(rest);

        step.after(Action::Write(Frame::from(frame)))
    }

    /// An error either relates to a single stream or the entire connection. If it does only relate
    /// to a single stream, this stream gets reset without closing the entire connection.
    pub fn handle_possible_stream_error(&mut self, err: H2Error, id: u32, rest: Rest) -> (step: Step)
        requires
            old(self).wf(),
        ensures
            final(self).wf(),
            (final(self)@, step@) == old(self)@.stream_error(err, id, rest),
    {
        match err {
            H2Error::Connection(_) => Step::error(err),
            H2Error::Stream(code) => {
                // A stream error on the pseudo stream 0 is not possible.
                if id == 0 {
                    return Step::fail(ErrorCode::InternalError);
                }
                if self.streams.contains_key(&id) {
                    self.streams.insert(id, StreamHandle { closed: true });

                    return Step::of(
                        Next::Deliver(id, StreamReq::Reset, After::Reset(id, code, rest)),
                    );
                }
                self.send_reset(id, code, rest)
            },
        }
    }

    /// Goes on after a message was delivered to a stream, or could not be delivered.
    pub fn delivered(&mut self, after: After, ok: bool) -> (step: Step)
        requires
            old(self).wf(),
        ensures
            final(self).wf(),
            (final(self)@, step@) == old(self)@.delivered(after, ok),
    {
        match after {
            After::WindowUpdate(id) => if ok {
                self.distribute_window()
            } else {
                let err = StreamReq::WindowUpdate(0).undelivered();
                self.handle_possible_stream_error(err, id, Rest::Distribute)
            },
            After::Reset(id, code, rest) => if ok {
                self.send_reset(id, code, rest)
            } else {
                self.streams.remove(&id);
                let step = self.send_reset(id, code, rest);

                step.after(Action::Forget(id))
            },
        }
    }

    /// Updates the available global window by the given amount and hands it out.
    pub fn update_global_window(&mut self, amount: i32) -> (step: Step)
        requires
            old(self).wf(),
        ensures
            final(self).wf(),
            (final(self)@, step@) == old(self)@.update_global_window(amount),
    {
        match self.global_window.checked_add(amount) {
            Some(window) => {
                self.global_window = window;

                self.distribute_window()
            },
            None => Step::fail(ErrorCode::InternalError),
        }
    }

    /// Increases the window of the peer, both on the stream and on the connection.
    fn update_peer_window(&mut self, id: u32, amount: i32) -> (step: Step)
        requires
            old(self).wf(),
        ensures
            final(self).wf(),
            (final(self)@, step@) == old(self)@.update_peer_window(id, amount),
    {
        self.peer_window = match self.peer_window.checked_add(amount) {
            Some(window) => window,
            None => return Step::fail(ErrorCode::InternalError),
        };
        if amount < 0 {
            return Step::fail(ErrorCode::InternalError);
        }
        let window_size_increment: u32 = amount as u32;
        let global = WindowUpdateFrame { stream: 0, window_size_increment };
        let local = WindowUpdateFrame { stream: id, window_size_increment };
        let step = Step::write(Frame::from(local));

        step.after(Action::Write(Frame::from(global)))
    }

    /// Encodes a response (headers only).
    fn write_response(&mut self, resp: &Response, id: u32, end_stream: bool) -> (step: Step)
        requires
            old(self).wf(),
        ensures
            final(self).wf(),
            (final(self)@, step@) == old(self)@.on_request(
                ConnectionReqView::Response(resp@, id, end_stream),
            ),
    {
        let list: Vec<(Vec<u8>, Vec<u8>)> = response_headers(resp);
        let block: Vec<u8> = encode_block(&mut self.header_encoder, &list);
        let mut frames: Vec<Frame> = split_block(id, end_stream, block);
        let ghost all = frames@;
        let mut actions: Vec<Action> = Vec::new();
        proof {
            assert(all.take(0) =~= Seq::empty());
            assert(action_views(actions@) =~= Seq::empty());
        }
        while frames.len() > 0
            invariant
                frames@.len() <= all.len(),
                frames@ == all.skip(all.len() - frames@.len()),
                action_views(actions@) == write_actions(
                    super::headers::frame_views(all.take(all.len() - frames@.len())),
                ),
            decreases frames@.len(),
        {
            let ghost done = all.len() - frames@.len();
            let ghost before = actions@;
            let frame: Frame = frames.remove(0);
            actions.push(Action::Write(frame));
            proof {
                assert(frame == all[done]);
                assert(frames@ =~= all.skip(done + 1));
                assert(action_views(actions@) =~= action_views(before).push(
                    ActionView::Write(frame@),
                ));
                assert(write_actions(super::headers::frame_views(all.take(done + 1)))
                    =~= write_actions(super::headers::frame_views(all.take(done))).push(
                    ActionView::Write(frame@),
                ));
            }
        }
        proof {
            assert(all.take(all.len() as int) =~= all);
        }

        Step { actions, next: Next::Continue }
    }

    /// Handles a message of a stream.
    pub fn on_request(&mut self, req: ConnectionReq) -> (step: Step)
        requires
            old(self).wf(),
        ensures
            final(self).wf(),
            (final(self)@, step@) == old(self)@.on_request(req@),
    {
        match req {
            ConnectionReq::Frame(frame) => Step::write(frame),
            ConnectionReq::Response(resp, id, end_stream) => self.write_response(
                &resp,
                id,
                end_stream,
            ),
            ConnectionReq::GetWindow(id, amount) => {
                self.pending_window_req.push((id, amount));

                self.distribute_window()
            },
            ConnectionReq::PutWindow(amount) => self.update_global_window(amount),
            ConnectionReq::UpdatePeerWindow(id, amount) => self.update_peer_window(id, amount),
            ConnectionReq::StreamClosing(id, error) => match error {
                Some(err) => self.handle_possible_stream_error(err, id, Rest::CloseStream(id)),
                None => self.close_stream(id),
            },
            ConnectionReq::StreamClosed(id) => {
                self.streams.remove(&id);

                Step::action(Action::Forget(id))
            },
        }
    }

    /// The server shuts down gracefully.
    pub fn on_shutdown(&mut self, now: Nanos) -> (step: Step)
        requires
            old(self).wf(),
            now <= DURATION_MAX,
        ensures
            final(self).wf(),
            (final(self)@, step@) == old(self)@.on_shutdown(now),
    {
        if self.open_streams == 0 {
            return Step::of(Next::Exit(Ok(())));
        }
        self.pending_gracefull_shutdown = true;
        // Inform the remote peer that we do not want new streams to be opened.
        let mut frame = SettingsFrame::default();
        frame.max_concurrent_streams = Some(0);
        self.settings_ack_timeouts.push(now + self.config.h2_settings_timeout);

        Step::write(Frame::from(frame))
    }

    /// Checks whether any timeout has been reached.
    pub fn on_timer(&mut self, now: Nanos) -> (step: Step)
        requires
            old(self).wf(),
            now <= DURATION_MAX,
        ensures
            final(self).wf(),
            (final(self)@, step@) == old(self)@.on_timer(now),
    {
        let mut i: usize = 0;
        while i < self.settings_ack_timeouts.len()
            invariant
                i <= self.settings_ack_timeouts@.len(),
                *self == *old(self),
                self.wf(),
                forall|j: int| 0 <= j < i ==> now <= #[trigger] self.settings_ack_timeouts@[j],
            decreases self.settings_ack_timeouts@.len() - i,
        {
            if now > self.settings_ack_timeouts[i] {
                proof {
                    assert(now > self@.settings_ack_timeouts[i as int]);
                }
                return Step::fail(ErrorCode::SettingsTimeout);
            }
            i = i + 1;
        }
        if let Some(timeout) = self.ping_ack_timeout {
            if now > timeout {
                return Step::fail(ErrorCode::ProtocolError);
            }
            // The last ping is not answered yet.
            return Step::nothing();
        }
        let timeout: u128 = self.last_frame_received + self.config.h2_ping_interval;
        if now > timeout {
            let frame = PingFrame { ack: false, data: self.config.h2_ping_payload };
            self.ping_ack_timeout = Some(now + self.config.h2_ping_timeout);

            return Step::write(Frame::from(frame));
        }

        Step::nothing()
    }
}

/// Whether a step is the given answer of a connection, or an abort because a header list is longer
/// than there is sure to be room for.
pub open spec fn reacts(before: ConnView, reaction: Reaction, after: ConnView, step: StepView) -> bool {
    ||| (after, step) == reaction
    ||| before.may_overflow(reaction) && step == StepView::of(NextView::Abort)
}

impl Connection {
    /// Opens a stream for a request.
    fn open(&mut self, req: Request, stream: u32, end_stream: bool) -> (step: Step)
        requires
            old(self).wf(),
        ensures
            final(self).wf(),
            (final(self)@, step@) == old(self)@.open(req@, stream, end_stream),
    {
        let window: u32 = self.remote_settings.initial_window_size;
        let peer_window: u32 = self.local_settings.initial_window_size;
        if window > WINDOW_SIZE_MAX || peer_window > WINDOW_SIZE_MAX {
            return Step::fail(ErrorCode::ProtocolError);
        }
        if stream > self.biggest_open_stream {
            self.biggest_open_stream = stream;
        }
        self.open_streams = match self.open_streams.checked_add(1) {
            Some(streams) => streams,
            None => return Step::fail(ErrorCode::InternalError),
        };
        let opened = Stream::new(stream, StreamState::Open, window as i32, peer_window as i32);
        self.streams.insert(stream, StreamHandle { closed: false });

        Step::action(Action::Open(opened, req, end_stream))
    }

    /// After a full set of HEADERS frames got received, parses the request from the internal header
    /// buffer with the help of the HPACK decoder and opens a stream for it.
    fn on_block(&mut self, stream: u32, end_stream: bool) -> (step: Step)
        requires
            old(self).wf(),
        ensures
            final(self).wf(),
            reacts(
                old(self)@,
                old(self)@.on_block(stream, end_stream),
                final(self)@,
                step@,
            ),
    {
        // Refuse the new stream if we are in shutdown mode or if it violates the max concurrent
        // streams setting.
        let refused = self.pending_gracefull_shutdown || match self.config.h2_settings.max_concurrent_streams {
            Some(max) => self.open_streams >= max,
            None => false,
        };
        if refused {
            self.header_buffer.reset();
            proof {
                assert(self@ =~= old(self)@.block_taken());
            }

            return self.handle_possible_stream_error(
                H2Error::Stream(ErrorCode::RefusedStream),
                stream,
                Rest::Nothing,
            );
        }
        let block: &[u8] = self.header_buffer.as_ref();
        if let Some(at) = find_bad_update(block) {
            let front: &[u8] = vstd::slice::slice_subrange(block, 0, at);
            proof {
                assert(front@ =~= old(self)@.block.take(at as int));
            }
            return match decode_block(&mut self.header_decoder, front) {
                None => Step::fail(ErrorCode::CompresssionError),
                Some(_) => Step::of(Next::Abort),
            };
        }
        let list: Vec<(Vec<u8>, Vec<u8>)> = match decode_block(&mut self.header_decoder, block) {
            Some(list) => list,
            None => return Step::fail(ErrorCode::CompresssionError),
        };
        self.header_buffer.reset();
        proof {
            assert(self@ =~= old(self)@.block_decoded(old(self)@.block).block_taken());
        }
        match request_from_headers(&list) {
            None => Step::of(Next::Abort),
            Some(Err(err)) => self.handle_possible_stream_error(err, stream, Rest::Nothing),
            Some(Ok(req)) => self.open(req, stream, end_stream),
        }
    }

    /// Takes in a part of a header block.
    fn on_block_part(
        &mut self,
        stream: u32,
        end_stream: bool,
        end_headers: bool,
        data: &[u8],
    ) -> (step: Step)
        requires
            old(self).wf(),
        ensures
            final(self).wf(),
            reacts(
                old(self)@,
                old(self)@.on_block_part(stream, end_stream, end_headers, data@),
                final(self)@,
                step@,
            ),
    {
        let written: usize = self.header_buffer.write(data);
        if written != data.len() {
            proof {
                assert(self@ =~= old(self)@.on_block_part(
                    stream,
                    end_stream,
                    end_headers,
                    data@,
                ).0);
            }
            return Step::fail(ErrorCode::ProtocolError);
        }
        proof {
            assert(data@.take(written as int) =~= data@);
        }
        if end_headers {
            self.pending_headers = None;

            self.on_block(stream, end_stream)
        } else {
            self.pending_headers = Some((stream, end_stream));

            Step::nothing()
        }
    }

    /// Handles the begin of a header block.
    fn on_headers(&mut self, frame: HeadersFrame) -> (step: Step)
        requires
            old(self).wf(),
        ensures
            final(self).wf(),
            reacts(old(self)@, old(self)@.on_headers(frame@), final(self)@, step@),
    {
        let stream: u32 = frame.stream;
        // Client initiated streams must be odd-numbered.
        if stream % 2 == 0 {
            return Step::fail(ErrorCode::ProtocolError);
        }
        // Either the header is a regular header or a trailer.
        // If it is a trailer it must belong to a not (fully!) closed stream. Otherwise it opens
        // another stream, which must not belong to one of the (implicitly) closed streams.
        if !self.streams.contains_key(&stream) {
            if self.biggest_open_stream >= stream {
                return Step::fail(ErrorCode::ProtocolError);
            }
        }
        self.on_block_part(stream, frame.end_stream, frame.end_headers, frame.data.as_slice())
    }

    /// Handles the frame behind an incomplete header block.
    fn on_continuation(&mut self, frame: Frame, stream: u32, end_stream: bool) -> (step: Step)
        requires
            old(self).wf(),
        ensures
            final(self).wf(),
            reacts(
                old(self)@,
                old(self)@.on_continuation(frame@, stream, end_stream),
                final(self)@,
                step@,
            ),
    {
        if frame.header.frame_type != FrameType::Continuation {
            return Step::fail(ErrorCode::ProtocolError);
        }
        match ContinuationFrame::try_from(frame) {
            Err(err) => Step::error(err),
            Ok(frame) => {
                if frame.stream != stream {
                    return Step::fail(ErrorCode::ProtocolError);
                }
                self.on_block_part(stream, end_stream, frame.end_headers, frame.data.as_slice())
            },
        }
    }

    /// Handles body data.
    fn on_data(&mut self, frame: DataFrame) -> (step: Step)
        requires
            old(self).wf(),
        ensures
            final(self).wf(),
            (final(self)@, step@) == old(self)@.on_data(frame@),
    {
        let id: u32 = frame.stream;
        // If we receive a data frame on a stream that has been closed for some time, we treat this
        // as a connection error.
        let handle: StreamHandle = match self.streams.get(&id) {
            Some(handle) => *handle,
            None => return Step::fail(ErrorCode::ProtocolError),
        };
        let len: usize = frame.data.len();
        if len > i32::MAX as usize {
            return Step::fail(ErrorCode::ProtocolError);
        }
        let amount: i32 = len as i32;
        if amount > self.peer_window {
            return Step::fail(ErrorCode::FlowControlError);
        }
        self.peer_window = self.peer_window - amount;

        Step::action(Action::Send(id, handle.send_data(frame)))
    }

    /// Handles the settings of the peer, or an acknowledgement of the own ones.
    fn on_settings(&mut self, frame: SettingsFrame) -> (step: Step)
        requires
            old(self).wf(),
        ensures
            final(self).wf(),
            (final(self)@, step@) == old(self)@.on_settings(frame),
    {
        // Acknowledge the settings if necessary. Otherwise apply them.
        if frame.ack {
            if self.settings_ack_timeouts.len() > 0 {
                self.settings_ack_timeouts.remove(0);
            }
            proof {
                assert(self@.settings_ack_timeouts =~= old(self)@.on_settings(
                    frame,
                ).0.settings_ack_timeouts);
            }

            return Step::nothing();
        }
        match self.remote_settings.apply_settings_frame(frame) {
            Err(err) => Step::error(err),
            Ok(dif) => {
                let mut frame = SettingsFrame::default();
                frame.ack = true;
                let step = Step::write(Frame::from(frame));

                step.after(Action::UpdateWindows(dif))
            },
        }
    }

    /// Answers a ping, or takes the answer to the own one.
    fn on_ping(&mut self, frame: PingFrame) -> (step: Step)
        requires
            old(self).wf(),
        ensures
            final(self).wf(),
            (final(self)@, step@) == old(self)@.on_ping(frame),
    {
        if !frame.ack {
            return Step::write(Frame::from(PingFrame { ack: true, data: frame.data }));
        }
        if frame.data != self.config.h2_ping_payload {
            return Step::fail(ErrorCode::ProtocolError);
        }
        self.ping_ack_timeout = None;

        Step::nothing()
    }

    /// The peer accepts more data.
    fn on_window_update(&mut self, frame: WindowUpdateFrame) -> (step: Step)
        requires
            old(self).wf(),
            frame.window_size_increment <= WINDOW_SIZE_MAX,
        ensures
            final(self).wf(),
            (final(self)@, step@) == old(self)@.on_window_update(frame),
    {
        let amount: i32 = frame.window_size_increment as i32;
        if frame.stream == 0 {
            return self.update_global_window(amount);
        }
        match self.streams.get(&frame.stream) {
            Some(handle) => Step::of(
                Next::Deliver(
                    frame.stream,
                    handle.update_window(amount),
                    After::WindowUpdate(frame.stream),
                ),
            ),
            None => self.distribute_window(),
        }
    }

    /// Handles a frame which was received.
    pub fn on_frame(&mut self, frame: Frame, now: Nanos) -> (step: Step)
        requires
            old(self).wf(),
            super::frame::is_sized(frame@),
            now <= DURATION_MAX,
        ensures
            final(self).wf(),
            reacts(old(self)@, old(self)@.on_frame(frame@, now), final(self)@, step@),
    {
        if let Some((stream, end_stream)) = self.pending_headers {
            return self.on_continuation(frame, stream, end_stream);
        }
        self.last_frame_received = now;
        match frame.header.frame_type {
            FrameType::Data => match DataFrame::try_from(frame) {
                Err(err) => Step::error(err),
                Ok(frame) => self.on_data(frame),
            },
            FrameType::Headers => {
                if !HeadersFrame::has_room(&frame) {
                    return Step::of(Next::Abort);
                }
                match HeadersFrame::try_from(frame) {
                    Err(err) => Step::error(err),
                    Ok(frame) => self.on_headers(frame),
                }
            },
            FrameType::Priority => match PriorityFrame::try_from(frame) {
                Err(err) => Step::error(err),
                Ok(_) => Step::nothing(),
            },
            FrameType::RstStream => match RstStreamFrame::try_from(frame) {
                Err(err) => Step::error(err),
                Ok(_) => Step::nothing(),
            },
            FrameType::Settings => match SettingsFrame::try_from(frame) {
                Err(err) => Step::error(err),
                Ok(frame) => self.on_settings(frame),
            },
            FrameType::PushPromise => Step::fail(ErrorCode::ProtocolError),
            FrameType::Ping => match PingFrame::try_from(frame) {
                Err(err) => Step::error(err),
                Ok(frame) => self.on_ping(frame),
            },
            FrameType::GoAway => match GoAwayFrame::try_from(frame) {
                Err(err) => Step::error(err),
                Ok(_) => Step::of(Next::Exit(Ok(()))),
            },
            FrameType::WindowUpdate => match WindowUpdateFrame::try_from(frame) {
                Err(err) => Step::error(err),
                Ok(frame) => self.on_window_update(frame),
            },
            FrameType::Continuation => Step::fail(ErrorCode::ProtocolError),
        }
    }
}

} // verus!
