//! A single stream of a connection: its state, its windows and its body.

use vstd::prelude::*;

use super::error::{ErrorCode, H2Error, H2Result};
use super::frame::{DataFrame, DataFrameView, Frame, FrameType, FrameView};
use crate::buffer::{min_len, Buffer};
use crate::message::{BodyType, HttpError, Request};
use crate::response::{Response, ResponseView};

verus! {

/// The state of a stream.
#[derive(Debug, Clone, Copy, PartialEq, Eq, Structural)]
pub enum StreamState {
    Idle,
    ReservedLocal,
    ReservedRemote,
    Open,
    HalfClosedLocal,
    HalfClosedRemote,
    Closed,
}

impl StreamState {
    /// Whether a frame of the given type may be received in this state.
    pub open spec fn allows(self, frame_type: FrameType) -> bool {
        match self {
            StreamState::Idle => frame_type == FrameType::Headers || frame_type
                == FrameType::Priority,
            StreamState::ReservedLocal => frame_type == FrameType::RstStream || frame_type
                == FrameType::Priority || frame_type == FrameType::WindowUpdate,
            StreamState::ReservedRemote => frame_type == FrameType::Headers || frame_type
                == FrameType::RstStream || frame_type == FrameType::Priority,
            StreamState::Open => true,
            StreamState::HalfClosedLocal => true,
            StreamState::HalfClosedRemote => frame_type == FrameType::RstStream || frame_type
                == FrameType::Priority || frame_type == FrameType::WindowUpdate,
            StreamState::Closed => frame_type == FrameType::RstStream || frame_type
                == FrameType::Priority || frame_type == FrameType::WindowUpdate,
        }
    }

    /// Checks whether a frame of the given type may be received in this state. In a (half) closed
    /// state a forbidden frame only affects the stream, else it affects the connection.
    pub fn is_frame_forbidden(&self, frame_type: FrameType) -> (ret: H2Result<()>)
        ensures
            ret == if self.allows(frame_type) {
                Ok::<(), H2Error>(())
            } else if *self == StreamState::HalfClosedRemote || *self == StreamState::Closed {
                Err::<(), H2Error>(H2Error::Stream(ErrorCode::StreamClosed))
            } else {
                Err::<(), H2Error>(H2Error::Connection(ErrorCode::ProtocolError))
            },
    {
        match self {
            StreamState::Idle => match frame_type {
                FrameType::Headers | FrameType::Priority => Ok(()),
                _ => Err(H2Error::Connection(ErrorCode::ProtocolError)),
            },
            StreamState::ReservedLocal => match frame_type {
                FrameType::RstStream | FrameType::Priority | FrameType::WindowUpdate => Ok(()),
                _ => Err(H2Error::Connection(ErrorCode::ProtocolError)),
            },
            StreamState::ReservedRemote => match frame_type {
                FrameType::Headers | FrameType::RstStream | FrameType::Priority => Ok(()),
                _ => Err(H2Error::Connection(ErrorCode::ProtocolError)),
            },
            StreamState::Open => Ok(()),
            StreamState::HalfClosedLocal => Ok(()),
            StreamState::HalfClosedRemote => match frame_type {
                FrameType::RstStream | FrameType::Priority | FrameType::WindowUpdate => Ok(()),
                _ => Err(H2Error::Stream(ErrorCode::StreamClosed)),
            },
            StreamState::Closed => match frame_type {
                FrameType::RstStream | FrameType::Priority | FrameType::WindowUpdate => Ok(()),
                _ => Err(H2Error::Stream(ErrorCode::StreamClosed)),
            },
        }
    }
}

/// What the connection tells a stream.
#[derive(Debug)]
pub enum StreamReq {
    /// The (eventual) answer to a [`ConnectionReq::GetWindow`] request.
    /// Informs the stream that it has successfully aquired the provided amount
    /// from the global window.
    AvailableWindow(i32),
    /// A stream level window update, either received by the peer or triggered by
    /// an update of the peers initial_window_size setting.
    /// Increases/Decreases the stream window by the given amount.
    WindowUpdate(i32),
    /// A data frame belonging to a request body.
    RequestBody(DataFrame),
    /// A stream level reset.
    Reset,
}

/// What a [`StreamReq`] holds.
#[verifier::ext_equal]
pub enum StreamReqView {
    AvailableWindow(i32),
    WindowUpdate(i32),
    RequestBody(DataFrameView),
    Reset,
}

impl View for StreamReq {
    type V = StreamReqView;

    open spec fn view(&self) -> StreamReqView {
        match self {
            StreamReq::AvailableWindow(amount) => StreamReqView::AvailableWindow(*amount),
            StreamReq::WindowUpdate(amount) => StreamReqView::WindowUpdate(*amount),
            StreamReq::RequestBody(frame) => StreamReqView::RequestBody(frame@),
            StreamReq::Reset => StreamReqView::Reset,
        }
    }
}

impl StreamReqView {
    /// What is wrong where a stream can not be told.
    pub open spec fn undelivered(self) -> H2Error {
        match self {
            StreamReqView::AvailableWindow(_) => H2Error::Connection(ErrorCode::InternalError),
            _ => H2Error::Stream(ErrorCode::StreamClosed),
        }
    }
}

impl StreamReq {
    /// The error which is reported where the stream is gone.
    pub fn undelivered(&self) -> (err: H2Error)
        ensures
            err == self@.undelivered(),
    {
        match self {
            StreamReq::AvailableWindow(_) => H2Error::Connection(ErrorCode::InternalError),
            _ => H2Error::Stream(ErrorCode::StreamClosed),
        }
    }
}

/// What a stream tells the connection.
#[derive(Debug)]
pub enum ConnectionReq {
    /// A frame to be send back to the client.
    Frame(Frame),
    /// A response (headers only) to be send back to the client.
    /// Does also contain the id of the stream the response belongs to as well
    /// as the end_stream flag.
    Response(Response, u32, bool),
    /// A request to consume the specified amount of the global window.
    GetWindow(u32, i32),
    /// Gives back to the global window in the event of a short read or read error.
    PutWindow(i32),
    /// Increases the window available for the peer, both for the stream as well as
    /// globally.
    UpdatePeerWindow(u32, i32),
    /// A stream switched to the closed state.
    StreamClosing(u32, Option<H2Error>),
    /// A stream closed its task entirely.
    StreamClosed(u32),
}

/// What a [`ConnectionReq`] holds.
#[verifier::ext_equal]
pub enum ConnectionReqView {
    Frame(FrameView),
    Response(ResponseView, u32, bool),
    GetWindow(u32, i32),
    PutWindow(i32),
    UpdatePeerWindow(u32, i32),
    StreamClosing(u32, Option<H2Error>),
    StreamClosed(u32),
}

impl View for ConnectionReq {
    type V = ConnectionReqView;

    open spec fn view(&self) -> ConnectionReqView {
        match self {
            ConnectionReq::Frame(frame) => ConnectionReqView::Frame(frame@),
            ConnectionReq::Response(resp, id, end) => ConnectionReqView::Response(
                resp@,
                *id,
                *end,
            ),
            ConnectionReq::GetWindow(id, amount) => ConnectionReqView::GetWindow(*id, *amount),
            ConnectionReq::PutWindow(amount) => ConnectionReqView::PutWindow(*amount),
            ConnectionReq::UpdatePeerWindow(id, amount) => ConnectionReqView::UpdatePeerWindow(
                *id,
                *amount,
            ),
            ConnectionReq::StreamClosing(id, err) => ConnectionReqView::StreamClosing(*id, *err),
            ConnectionReq::StreamClosed(id) => ConnectionReqView::StreamClosed(*id),
        }
    }
}

/// What a list of requests holds.
pub open spec fn req_views(reqs: Seq<ConnectionReq>) -> Seq<ConnectionReqView> {
    Seq::new(reqs.len(), |i: int| reqs[i]@)
}

/// What the connection knows of a stream.
#[derive(Debug, Clone, Copy)]
pub struct StreamHandle {
    pub closed: bool,
}

impl StreamHandle {
    /// The message about a change of the stream window.
    pub fn update_window(&self, amount: i32) -> (req: StreamReq)
        ensures
            req@ == StreamReqView::WindowUpdate(amount),
    {
        StreamReq::WindowUpdate(amount)
    }

    /// The message about an amount of the global window which the stream aquired.
    pub fn give_from_global_window(&self, amount: i32) -> (req: StreamReq)
        ensures
            req@ == StreamReqView::AvailableWindow(amount),
    {
        StreamReq::AvailableWindow(amount)
    }

    /// The message with a part of the request body.
    pub fn send_data(&self, data: DataFrame) -> (req: StreamReq)
        ensures
            req@ == StreamReqView::RequestBody(data@),
    {
        StreamReq::RequestBody(data)
    }
}

/// What a stream does with the body of its request.
#[derive(Debug)]
pub enum RequestBody {
    /// The request is refused with this response.
    Refused(Response),
    /// There is no body.
    Empty,
    /// There is a body, whose length may be known.
    Body(Option<usize>),
}

/// How the handler of a request ended.
#[derive(Debug, Clone, Copy, PartialEq, Eq, Structural)]
pub enum HandlerOutcome {
    /// The handler returned a response.
    Answered,
    /// The handler returned an error.
    Failed(HttpError),
    /// The handler did not return in time.
    TimedOut,
    /// The handler paniced.
    Panicked,
}

/// What a stream has to do about a message of the connection.
#[derive(Debug)]
pub enum StreamStep {
    /// Nothing.
    Done,
    /// Hand the data to the reader of the request body, and tell with [`Stream::body_delivered`]
    /// whether it was still there. The second value is the length of the data.
    Deliver(Vec<u8>, i32),
}

/// The windows and the body of a stream.
#[derive(Debug, Clone, Copy)]
pub struct Stream {
    /// The identifier of the stream.
    pub id: u32,
    pub state: StreamState,
    /// What was aquired from the global window but not used yet.
    pub available_window: i32,
    /// What can still be requested from the global window.
    pub window: i32,
    /// What the peer may still send.
    pub peer_window: i32,
    /// Whether there is a reader for the request body.
    pub has_body: bool,
}

/// The sum of two window sizes, if it is one.
pub open spec fn window_sum(window: i32, amount: i32) -> Option<i32> {
    if i32::MIN <= window + amount <= i32::MAX {
        Some((window + amount) as i32)
    } else {
        None
    }
}

/// The data of an amount which the window allows to be sent.
pub open spec fn sendable(window: i32, available: int) -> int {
    if window > 0 {
        crate::buffer::min(window as int, available)
    } else {
        0
    }
}

/// What a stream has to do about a message: hand on some data, whose length is the second value, or
/// nothing.
pub open spec fn step_view(ret: H2Result<StreamStep>) -> H2Result<Option<(Seq<u8>, i32)>> {
    match ret {
        Ok(StreamStep::Done) => Ok(None),
        Ok(StreamStep::Deliver(data, amount)) => Ok(Some((data@, amount))),
        Err(err) => Err(err),
    }
}

/// What is decided about the body of a request: it is refused, there is none, or there is one whose
/// length may be known.
pub open spec fn decided_body(req: crate::message::RequestView, stream_end: bool) -> core::result::Result<
    Option<Option<usize>>,
    u16,
> {
    match req.body_type_h2() {
        Err(_) => Err(400),
        Ok(body_type) => if stream_end {
            Ok(None)
        } else {
            Ok(crate::body::body_length(body_type))
        },
    }
}

impl Stream {
    /// The stream after a message of the connection, and what it has to do about it.
    pub open spec fn told(self, req: StreamReqView) -> (Stream, H2Result<Option<(Seq<u8>, i32)>>) {
        match req {
            StreamReqView::RequestBody(frame) => (
                self,
                if !self.has_body || frame.data.len() > i32::MAX {
                    Err(H2Error::Connection(ErrorCode::ProtocolError))
                } else if frame.data.len() > self.peer_window {
                    Err(H2Error::Connection(ErrorCode::FlowControlError))
                } else {
                    Ok(Some((frame.data, frame.data.len() as i32)))
                },
            ),
            StreamReqView::AvailableWindow(amount) => match window_sum(
                self.available_window,
                amount,
            ) {
                Some(available_window) => (Stream { available_window, ..self }, Ok(None)),
                None => (self, Err(H2Error::Connection(ErrorCode::ProtocolError))),
            },
            StreamReqView::WindowUpdate(amount) => match window_sum(self.window, amount) {
                Some(window) => (Stream { window, ..self }, Ok(None)),
                None => (self, Err(H2Error::Connection(ErrorCode::ProtocolError))),
            },
            StreamReqView::Reset => (self, Err(H2Error::Stream(ErrorCode::NoError))),
        }
    }

    /// The stream after it tried to hand on some data, and what it tells the connection.
    pub open spec fn handed_on(self, amount: i32, delivered: bool) -> (
        Stream,
        Option<ConnectionReqView>,
    ) {
        if delivered {
            (Stream { peer_window: (self.peer_window - amount) as i32, ..self }, None)
        } else {
            (self, Some(ConnectionReqView::UpdatePeerWindow(self.id, amount)))
        }
    }

    /// The stream after some data was read, and what it tells the connection.
    pub open spec fn data_read(self, amount: i32) -> (Stream, H2Result<ConnectionReqView>) {
        match window_sum(self.peer_window, amount) {
            Some(peer_window) => (
                Stream { peer_window, ..self },
                Ok(ConnectionReqView::UpdatePeerWindow(self.id, amount)),
            ),
            None => (self, Err(H2Error::Connection(ErrorCode::InternalError))),
        }
    }

    /// The stream after its end, and what it tells the connection.
    pub open spec fn finished(self, error: Option<H2Error>) -> (Stream, Seq<ConnectionReqView>) {
        let last = seq![
            ConnectionReqView::StreamClosing(self.id, error),
            ConnectionReqView::StreamClosed(self.id),
        ];
        if self.available_window > 0 {
            (
                Stream { available_window: 0, ..self },
                seq![ConnectionReqView::PutWindow(self.available_window)] + last,
            )
        } else {
            (self, last)
        }
    }

    /// A stream with the given windows.
    pub fn new(id: u32, state: StreamState, window: i32, peer_window: i32) -> (stream: Self)
        ensures
            stream == (Stream {
                id,
                state,
                available_window: 0,
                window,
                peer_window,
                has_body: false,
            }),
    {
        Stream { id, state, available_window: 0, window, peer_window, has_body: false }
    }

    /// Decides about the body of the request, before the handler is called. `stream_end` tells that
    /// the client will not send any data.
    pub fn open_body(&mut self, req: &Request, stream_end: bool) -> (body: RequestBody)
        ensures
            decided_body(req@, stream_end) == match body {
                RequestBody::Refused(resp) => Err(resp@.status),
                RequestBody::Empty => Ok(None),
                RequestBody::Body(len) => Ok(Some(len)),
            },
            final(self).has_body == (old(self).has_body || body is Body),
            match req@.body_type_h2() {
                Err(_) => {
                    &&& body matches RequestBody::Refused(resp)
                    &&& resp@ == (ResponseView {
                        status: 400,
                        version: crate::message::Version::Http11,
                        fields: Seq::empty(),
                    })
                    &&& *final(self) == *old(self)
                },
                Ok(body_type) => if stream_end || body_type == BodyType::NoBody {
                    &&& body is Empty
                    &&& *final(self) == *old(self)
                } else {
                    &&& body matches RequestBody::Body(len)
                    &&& Some(len) == crate::body::body_length(body_type)
                    &&& *final(self) == (Stream { has_body: true, ..*old(self) })
                },
            },
    {
        let body_type: BodyType = match req.determine_body_type_h2() {
            Ok(body_type) => body_type,
            Err(_) => return RequestBody::Refused(Self::generate_resp(400)),
        };
        if req.validate().is_err() {
            return RequestBody::Refused(Self::generate_resp(400));
        }
        if stream_end {
            return RequestBody::Empty;
        }
        match crate::body::body_length_of(body_type) {
            Some(len) => {
                self.has_body = true;

                RequestBody::Body(len)
            },
            None => RequestBody::Empty,
        }
    }

    /// The response which is sent in place of the one of the handler, if the handler did not return
    /// one.
    pub fn answer(outcome: HandlerOutcome) -> (resp: Option<Response>)
        ensures
            match outcome {
                HandlerOutcome::Answered => resp is None,
                HandlerOutcome::Failed(err) => {
                    &&& resp matches Some(resp)
                    &&& resp@ == (ResponseView {
                        status: err.status,
                        version: crate::message::Version::Http11,
                        fields: Seq::empty(),
                    }).with_header("content-length"@, crate::text::ascii("0"@))
                },
                _ => {
                    &&& resp matches Some(resp)
                    &&& resp@ == (ResponseView {
                        status: 500,
                        version: crate::message::Version::Http11,
                        fields: Seq::empty(),
                    })
                },
            },
    {
        match outcome {
            HandlerOutcome::Answered => None,
            HandlerOutcome::Failed(err) => Some(Response::without_body(err.status)),
            HandlerOutcome::TimedOut => Some(Self::generate_resp(500)),
            HandlerOutcome::Panicked => Some(Self::generate_resp(500)),
        }
    }

    /// A response with the given status and without headers.
    pub fn generate_resp(status: u16) -> (resp: Response)
        ensures
            resp@ == (ResponseView {
                status,
                version: crate::message::Version::Http11,
                fields: Seq::empty(),
            }),
    {
        Response::with_status(status)
    }

    /// Handles a message of the connection.
    pub fn handle_req(&mut self, req: StreamReq) -> (ret: H2Result<StreamStep>)
        ensures
            (*final(self), step_view(ret)) == old(self).told(req@),
            match req@ {
                StreamReqView::RequestBody(frame) => {
                    &&& *final(self) == *old(self)
                    &&& if !old(self).has_body || frame.data.len() > i32::MAX {
                        ret matches Err(err) && err == H2Error::Connection(ErrorCode::ProtocolError)
                    } else if frame.data.len() > old(self).peer_window {
                        ret matches Err(err) && err == H2Error::Connection(
                            ErrorCode::FlowControlError,
                        )
                    } else {
                        ret matches Ok(StreamStep::Deliver(data, amount)) && data@ == frame.data
                            && amount == frame.data.len()
                    }
                },
                StreamReqView::AvailableWindow(amount) => match window_sum(
                    old(self).available_window,
                    amount,
                ) {
                    Some(total) => {
                        &&& ret matches Ok(StreamStep::Done)
                        &&& *final(self) == (Stream { available_window: total, ..*old(self) })
                    },
                    None => {
                        &&& ret matches Err(err)
                        &&& err == H2Error::Connection(ErrorCode::ProtocolError)
                        &&& *final(self) == *old(self)
                    },
                },
                StreamReqView::WindowUpdate(amount) => match window_sum(old(self).window, amount) {
                    Some(total) => {
                        &&& ret matches Ok(StreamStep::Done)
                        &&& *final(self) == (Stream { window: total, ..*old(self) })
                    },
                    None => {
                        &&& ret matches Err(err)
                        &&& err == H2Error::Connection(ErrorCode::ProtocolError)
                        &&& *final(self) == *old(self)
                    },
                },
                StreamReqView::Reset => {
                    &&& ret matches Err(err)
                    &&& err == H2Error::Stream(ErrorCode::NoError)
                    &&& *final(self) == *old(self)
                },
            },
    {
        match req {
            StreamReq::RequestBody(frame) => {
                // Abort early if the request did not contain a body.
                if !self.has_body {
                    return Err(H2Error::Connection(ErrorCode::ProtocolError));
                }
                // Make sure the frame length is within the RFCs limits.
                let len: usize = frame.data.len();
                if len > i32::MAX as usize {
                    return Err(H2Error::Connection(ErrorCode::ProtocolError));
                }
                let amount: i32 = len as i32;
                // Check if there is a flow control violation.
                if amount > self.peer_window {
                    return Err(H2Error::Connection(ErrorCode::FlowControlError));
                }

                Ok(StreamStep::Deliver(frame.data, amount))
            },
            StreamReq::AvailableWindow(amount) => {
                // Update the amount of global window aquired by this stream.
                match self.available_window.checked_add(amount) {
                    Some(total) => {
                        self.available_window = total;

                        Ok(StreamStep::Done)
                    },
                    None => Err(H2Error::Connection(ErrorCode::ProtocolError)),
                }
            },
            StreamReq::WindowUpdate(amount) => {
                match self.window.checked_add(amount) {
                    Some(total) => {
                        self.window = total;

                        Ok(StreamStep::Done)
                    },
                    None => Err(H2Error::Connection(ErrorCode::ProtocolError)),
                }
            },
            StreamReq::Reset => Err(H2Error::Stream(ErrorCode::NoError)),
        }
    }

    /// Notes whether the reader of the request body took the data. If it did, the window of the peer
    /// shrinks until the data is read. Else the global window of the peer is given back at once, and
    /// the stream window does not matter any more.
    pub fn body_delivered(&mut self, amount: i32, delivered: bool) -> (req: Option<ConnectionReq>)
        requires
            0 <= amount <= old(self).peer_window,
        ensures
            (
                *final(self),
                match req {
                    Some(req) => Some(req@),
                    None => None,
                },
            ) == old(self).handed_on(amount, delivered),
            if delivered {
                &&& req is None
                &&& *final(self) == (Stream {
                    peer_window: (old(self).peer_window - amount) as i32,
                    ..*old(self)
                })
            } else {
                &&& req matches Some(req)
                &&& req@ == ConnectionReqView::UpdatePeerWindow(old(self).id, amount)
                &&& *final(self) == *old(self)
            },
    {
        if !delivered {
            return Some(ConnectionReq::UpdatePeerWindow(self.id, amount));
        }
        self.peer_window = self.peer_window - amount;

        None
    }

    /// Notes that the reader of the request body is done with some data, which lets the window of the
    /// peer grow.
    pub fn body_consumed(&mut self, amount: i32) -> (ret: H2Result<ConnectionReq>)
        ensures
            (
                *final(self),
                match ret {
                    Ok(req) => Ok(req@),
                    Err(err) => Err(err),
                },
            ) == old(self).data_read(amount),
            match window_sum(old(self).peer_window, amount) {
                Some(total) => {
                    &&& ret matches Ok(req)
                    &&& req@ == ConnectionReqView::UpdatePeerWindow(old(self).id, amount)
                    &&& *final(self) == (Stream { peer_window: total, ..*old(self) })
                },
                None => {
                    &&& ret matches Err(err)
                    &&& err == H2Error::Connection(ErrorCode::InternalError)
                    &&& *final(self) == *old(self)
                },
            },
    {
        match self.peer_window.checked_add(amount) {
            Some(total) => {
                self.peer_window = total;

                Ok(ConnectionReq::UpdatePeerWindow(self.id, amount))
            },
            None => Err(H2Error::Connection(ErrorCode::InternalError)),
        }
    }

    /// The last messages of the stream. What it did not use of the global window is given back.
    pub fn finish(&mut self, error: Option<H2Error>) -> (reqs: Vec<ConnectionReq>)
        ensures
            (*final(self), req_views(reqs@)) == old(self).finished(error),
            req_views(reqs@) == (if old(self).available_window > 0 {
                seq![ConnectionReqView::PutWindow(old(self).available_window)]
            } else {
                Seq::empty()
            }) + seq![
                ConnectionReqView::StreamClosing(old(self).id, error),
                ConnectionReqView::StreamClosed(old(self).id),
            ],
            *final(self) == (Stream {
                available_window: if old(self).available_window > 0 {
                    0
                } else {
                    old(self).available_window
                },
                ..*old(self)
            }),
    {
        let mut reqs: Vec<ConnectionReq> = Vec::new();
        // If for some reason we still have some global window aquired, give it back.
        if self.available_window > 0 {
            reqs.push(ConnectionReq::PutWindow(self.available_window));
            self.available_window = 0;
        }
        // Inform the connection handler that the stream is now closed.
        reqs.push(ConnectionReq::StreamClosing(self.id, error));
        // Inform the connection handler that the stream handler will now exit.
        reqs.push(ConnectionReq::StreamClosed(self.id));
        proof {
            assert(req_views(reqs@) =~= (if old(self).available_window > 0 {
                seq![ConnectionReqView::PutWindow(old(self).available_window)]
            } else {
                Seq::empty()
            }) + seq![
                ConnectionReqView::StreamClosing(old(self).id, error),
                ConnectionReqView::StreamClosed(old(self).id),
            ]);
            assert(req_views(reqs@) =~= old(self).finished(error).1);
        }

        reqs
    }
}

/// The part of a response body which is being sent.
#[derive(Debug)]
pub struct BodySender {
    pub buffer: Buffer,
    /// How much of the window is still to be requested for the buffered data.
    pub window_needed: i32,
}

/// What is to be done about a response body.
#[derive(Debug)]
pub struct BodyProgress {
    /// What the connection has to be told.
    pub reqs: Vec<ConnectionReq>,
    /// Whether all of the buffered data is on its way.
    pub done: bool,
}

impl BodySender {
    /// A sender without data.
    pub fn new() -> (sender: Self)
        ensures
            sender.buffer.wf(),
            sender.buffer@.len() == 0,
            sender.buffer.storage().len() == 16_384,
            sender.window_needed == 0,
    {
        BodySender { buffer: Buffer::with_capacity(16_384), window_needed: 0 }
    }

    /// Notes that `amount` bytes of the body were read in the buffer.
    pub fn received(&mut self, amount: usize) -> (ret: H2Result<()>)
        ensures
            final(self).buffer == old(self).buffer,
            if amount <= i32::MAX {
                &&& ret == Ok::<(), H2Error>(())
                &&& final(self).window_needed == amount
            } else {
                &&& ret == Err::<(), H2Error>(H2Error::Stream(ErrorCode::InternalError))
                &&& final(self).window_needed == old(self).window_needed
            },
    {
        if amount > i32::MAX as usize {
            return Err(H2Error::Stream(ErrorCode::InternalError));
        }
        self.window_needed = amount as i32;

        Ok(())
    }
}

/// The frame which ends a body.
pub open spec fn end_of_body(id: u32) -> ConnectionReqView {
    ConnectionReqView::Frame(
        DataFrameView { stream: id, end_stream: true, data: Seq::empty() }.encoded(),
    )
}

/// How much of the window a stream requests for the data which is left to be sent.
pub open spec fn requested_window(stream: Stream, sender: BodySender) -> int {
    if sender.buffer@.len() > 0 && sender.window_needed > 0 && stream.window > 0 {
        crate::buffer::min(stream.window as int, sender.window_needed as int)
    } else {
        0
    }
}

/// What a stream tells the connection to send its data: a request for as much of the window as it
/// can get, and the data for which it has aquired some of the window.
pub open spec fn body_reqs(stream: Stream, sender: BodySender) -> Seq<ConnectionReqView> {
    let wanted = requested_window(stream, sender);
    let n = sendable(stream.available_window, sender.buffer@.len() as int);
    (if wanted > 0 {
        seq![ConnectionReqView::GetWindow(stream.id, wanted as i32)]
    } else {
        Seq::empty()
    }) + (if n > 0 {
        seq![
            ConnectionReqView::Frame(
                DataFrameView {
                    stream: stream.id,
                    end_stream: false,
                    data: sender.buffer@.take(n),
                }.encoded(),
            ),
        ]
    } else {
        Seq::empty()
    })
}

impl Stream {
    /// The request which ends the response body.
    pub fn end_body(&self) -> (req: ConnectionReq)
        ensures
            req@ == end_of_body(self.id),
    {
        let frame = DataFrame { stream: self.id, end_stream: true, data: Vec::new() };
        proof {
            assert(frame@ =~= DataFrameView {
                stream: self.id,
                end_stream: true,
                data: Seq::empty(),
            });
        }

        ConnectionReq::Frame(Frame::from(frame))
    }

    /// Sends as much of the buffered data as the windows allow. Where not all of it is sent, a
    /// message of the connection has to be awaited.
    pub fn advance_body(&mut self, sender: &mut BodySender) -> (progress: BodyProgress)
        requires
            old(sender).buffer.wf(),
        ensures
            req_views(progress.reqs@) == body_reqs(*old(self), *old(sender)),
            progress.done == (final(sender).buffer@.len() == 0),
            final(sender).buffer.wf(),
            final(sender).buffer.storage() == old(sender).buffer.storage(),
            final(sender).buffer@ == old(sender).buffer@.skip(
                sendable(old(self).available_window, old(sender).buffer@.len() as int),
            ),
            final(sender).window_needed == old(sender).window_needed - requested_window(
                *old(self),
                *old(sender),
            ),
            *final(self) == (Stream {
                window: (old(self).window - requested_window(*old(self), *old(sender))) as i32,
                available_window: (old(self).available_window - sendable(
                    old(self).available_window,
                    old(sender).buffer@.len() as int,
                )) as i32,
                ..*old(self)
            }),
    {
        let mut reqs: Vec<ConnectionReq> = Vec::new();
        let _inner_len: usize = sender.buffer.inner().len();
        let available: usize = sender.buffer.available_for_read();
        // Check if we can request more window from the global window.
        if available > 0 && sender.window_needed > 0 && self.window > 0 {
            let amount: i32 = if self.window >= sender.window_needed {
                sender.window_needed
            } else {
                self.window
            };
            self.window = self.window - amount;
            sender.window_needed = sender.window_needed - amount;
            reqs.push(ConnectionReq::GetWindow(self.id, amount));
        }
        if available > 0 && self.available_window > 0 {
            let window: usize = self.available_window as usize;
            let amount: usize = min_len(window, available);
            let data: Vec<u8> = vstd::slice::slice_to_vec(
                vstd::slice::slice_subrange(sender.buffer.as_ref(), 0, amount),
            );
            let frame = DataFrame { stream: self.id, end_stream: false, data };
            proof {
                assert(frame@ =~= DataFrameView {
                    stream: self.id,
                    end_stream: false,
                    data: old(sender).buffer@.take(amount as int),
                });
            }
            sender.buffer.progress(amount);
            self.available_window = self.available_window - amount as i32;
            reqs.push(ConnectionReq::Frame(Frame::from(frame)));
        } else {
            proof {
                assert(sender.buffer@.skip(0) =~= sender.buffer@);
            }
        }
        let done = sender.buffer.available_for_read() == 0;
        proof {
            assert(req_views(reqs@) =~= body_reqs(*old(self), *old(sender)));
        }

        BodyProgress { reqs, done }
    }
}

/// No stream sends more data than it aquired of the global window, and it never requests more of
/// the global window than its own window allows: what is left of both never becomes negative.
pub proof fn law_windows_are_kept(stream: Stream, sender: BodySender)
    ensures
        stream.available_window >= 0 ==> stream.available_window - sendable(
            stream.available_window,
            sender.buffer@.len() as int,
        ) >= 0,
        stream.window >= 0 ==> stream.window - requested_window(stream, sender) >= 0,
        sender.window_needed >= 0 ==> sender.window_needed - requested_window(stream, sender) >= 0,
{
}

/// The window which is requested for a piece of data adds up to its length: once everything is
/// requested, what was requested and what is still needed is what was read.
pub proof fn law_requested_window_adds_up(stream: Stream, sender: BodySender, requested: int)
    requires
        sender.buffer@.len() > 0,
        sender.window_needed >= 0,
    ensures
        requested + sender.window_needed == (requested + requested_window(stream, sender)) + (
        sender.window_needed - requested_window(stream, sender)),
        stream.window >= sender.window_needed ==> requested_window(stream, sender)
            == sender.window_needed,
{
}

/// A request has a body unless its method is one of GET, HEAD, OPTIONS and TRACE, the client ended the
/// stream, or its length is announced as zero. The length is known exactly if it is announced. What
/// can not be understood is a bad request.
pub proof fn law_body_is_decided(
    req: crate::message::RequestView,
    len: usize,
    stream_end: bool,
)
    requires
        req.values("transfer-encoding"@).len() == 0,
    ensures
        ({
            let safe = req.method == crate::text::ascii("GET"@) || req.method == crate::text::ascii(
                "HEAD"@,
            ) || req.method == crate::text::ascii("OPTIONS"@) || req.method == crate::text::ascii(
                "TRACE"@,
            );
            let lengths = req.values("content-length"@);
            let decided = decided_body(req, stream_end);
            &&& safe ==> decided == Ok::<Option<Option<usize>>, u16>(None)
            &&& !safe && lengths.len() > 0 && crate::number::parsed_usize(lengths[0]) is None
                ==> decided == Err::<Option<Option<usize>>, u16>(400)
            &&& stream_end && decided is Ok ==> decided == Ok::<Option<Option<usize>>, u16>(None)
            &&& !safe && !stream_end && lengths.len() == 0 ==> decided == Ok::<
                Option<Option<usize>>,
                u16,
            >(Some(None))
            &&& !safe && !stream_end && lengths.len() > 0 && lengths[0]
                == crate::number::decimal_text(len as nat) ==> decided == Ok::<
                Option<Option<usize>>,
                u16,
            >(
                if len > 0 {
                    Some(Some(len))
                } else {
                    None
                },
            )
        }),
{
    if req.method == crate::text::ascii("GET"@) || req.method == crate::text::ascii("HEAD"@)
        || req.method == crate::text::ascii("OPTIONS"@) || req.method == crate::text::ascii(
        "TRACE"@,
    ) {
        crate::message::law_safe_requests_have_no_body(req);
    } else {
        crate::message::law_length_frames_the_h2_body(req, len);
    }
}

/// Body data is passed on as it is, and uses up as much of the window of the peer as it is long until
/// it is read. Then the window is as big as before, and the connection is told of exactly this amount.
/// If there is nobody to read it, the connection is told at once. Data without a body, or beyond the
/// window, is refused.
pub proof fn law_body_data_is_passed_on(stream: Stream, frame: DataFrameView)
    ensures
        ({
            let (next, step) = stream.told(StreamReqView::RequestBody(frame));
            let len = frame.data.len() as i32;
            &&& next == stream
            &&& stream.has_body && frame.data.len() <= stream.peer_window ==> {
                let (waiting, note) = stream.handed_on(len, true);
                let (read, told) = waiting.data_read(len);
                &&& step == Ok::<Option<(Seq<u8>, i32)>, H2Error>(Some((frame.data, len)))
                &&& len == frame.data.len()
                &&& waiting.peer_window + frame.data.len() == stream.peer_window
                &&& note is None
                &&& read == stream
                &&& told == Ok::<ConnectionReqView, H2Error>(
                    ConnectionReqView::UpdatePeerWindow(stream.id, len),
                )
                &&& stream.handed_on(len, false) == (
                    stream,
                    Some(ConnectionReqView::UpdatePeerWindow(stream.id, len)),
                )
            }
            &&& !stream.has_body ==> step == Err::<Option<(Seq<u8>, i32)>, H2Error>(
                H2Error::Connection(ErrorCode::ProtocolError),
            )
            &&& stream.has_body && stream.peer_window < frame.data.len() < 0x8000_0000 ==> step
                == Err::<Option<(Seq<u8>, i32)>, H2Error>(
                H2Error::Connection(ErrorCode::FlowControlError),
            )
        }),
{
}

/// What a stream gets of the global window adds up, and so does what its own window grows by: two
/// messages are as good as one with the sum, and neither changes anything else.
pub proof fn law_windows_add_up(stream: Stream, first: i32, second: i32)
    requires
        i32::MIN <= stream.window + first <= i32::MAX,
        i32::MIN <= stream.window + first + second <= i32::MAX,
        i32::MIN <= stream.available_window + first <= i32::MAX,
        i32::MIN <= stream.available_window + first + second <= i32::MAX,
        i32::MIN <= first + second <= i32::MAX,
    ensures
        ({
            let one = stream.told(StreamReqView::WindowUpdate(first)).0;
            let both = one.told(StreamReqView::WindowUpdate(second)).0;
            let got = stream.told(StreamReqView::AvailableWindow(first)).0;
            let all = got.told(StreamReqView::AvailableWindow(second)).0;
            &&& both == stream.told(StreamReqView::WindowUpdate((first + second) as i32)).0
            &&& both == (Stream { window: both.window, ..stream })
            &&& both.window == stream.window + first + second
            &&& all == stream.told(StreamReqView::AvailableWindow((first + second) as i32)).0
            &&& all == (Stream { available_window: all.available_window, ..stream })
            &&& all.available_window == stream.available_window + first + second
            &&& one.told(StreamReqView::WindowUpdate(second)).1 is Ok
            &&& got.told(StreamReqView::AvailableWindow(second)).1 is Ok
        }),
{
}

/// A window which gets out of range breaks the connection, and a reset ends the stream.
pub proof fn law_stream_breaks(stream: Stream, amount: i32)
    ensures
        stream.window + amount > 0x7fff_ffff ==> stream.told(StreamReqView::WindowUpdate(amount)).1
            == Err::<Option<(Seq<u8>, i32)>, H2Error>(
            H2Error::Connection(ErrorCode::ProtocolError),
        ),
        stream.available_window + amount > 0x7fff_ffff ==> stream.told(
            StreamReqView::AvailableWindow(amount),
        ).1 == Err::<Option<(Seq<u8>, i32)>, H2Error>(
            H2Error::Connection(ErrorCode::ProtocolError),
        ),
        stream.peer_window + amount > 0x7fff_ffff ==> stream.data_read(amount).1 == Err::<
            ConnectionReqView,
            H2Error,
        >(H2Error::Connection(ErrorCode::InternalError)),
        stream.told(StreamReqView::Reset).1 == Err::<Option<(Seq<u8>, i32)>, H2Error>(
            H2Error::Stream(ErrorCode::NoError),
        ),
{
}

/// At its end a stream gives back all that it has left of the global window, and then tells the
/// connection that it closes, with its error, and that it is closed.
pub proof fn law_finished_stream_keeps_nothing(stream: Stream, error: Option<H2Error>)
    ensures
        ({
            let (next, reqs) = stream.finished(error);
            let n = reqs.len() as int;
            &&& next.available_window <= 0
            &&& next.id == stream.id && next.window == stream.window
            &&& stream.available_window > 0 ==> n == 3 && reqs[0] == ConnectionReqView::PutWindow(
                stream.available_window,
            ) && next.available_window == 0
            &&& stream.available_window <= 0 ==> n == 2 && next == stream
            &&& reqs[n - 2] == ConnectionReqView::StreamClosing(stream.id, error)
            &&& reqs[n - 1] == ConnectionReqView::StreamClosed(stream.id)
        }),
{
}

/// A window which grows has exactly the size of the window and the amount together, if that is a
/// window size at all.
pub proof fn law_window_sum_is_exact(window: i32, amount: i32, total: i32)
    ensures
        window_sum(window, amount) == Some(total) <==> window + amount == total,
        window_sum(window, amount) is None <==> window + amount > 0x7fff_ffff || window + amount
            < -0x8000_0000,
{
}

/// In which states the frames of a peer are accepted: priorities always, resets unless the stream
/// is idle, headers where the peer may begin or has not ended its side, and everything else but
/// window updates only while the peer has not ended its side.
pub proof fn law_frames_fit_the_state(state: StreamState)
    ensures
        ({
            let sending = state is Open || state is HalfClosedLocal;
            &&& state.allows(FrameType::Priority)
            &&& state.allows(FrameType::RstStream) <==> !(state is Idle)
            &&& state.allows(FrameType::WindowUpdate) <==> !(state is Idle) && !(
            state is ReservedRemote)
            &&& state.allows(FrameType::Headers) <==> sending || state is Idle
                || state is ReservedRemote
            &&& state.allows(FrameType::Data) <==> sending
            &&& state.allows(FrameType::Settings) <==> sending
            &&& state.allows(FrameType::PushPromise) <==> sending
            &&& state.allows(FrameType::Ping) <==> sending
            &&& state.allows(FrameType::GoAway) <==> sending
            &&& state.allows(FrameType::Continuation) <==> sending
        }),
{
}

/// The buffered data is sent in order and exactly once: what the frame holds and what is left in the
/// buffer is what was there. The frame belongs to the stream and does not end it, and it holds as
/// much as the aquired window and the buffer allow.
pub proof fn law_body_is_sent_in_order(stream: Stream, sender: BodySender, i: int)
    requires
        0 <= i < body_reqs(stream, sender).len(),
        stream.id != 0,
    ensures
        body_reqs(stream, sender)[i] matches ConnectionReqView::Frame(frame) ==> (
        DataFrameView::decoded(frame) matches Ok(part) && {
            let left = sender.buffer@.skip(
                sendable(stream.available_window, sender.buffer@.len() as int),
            );
            &&& part.stream == stream.id
            &&& !part.end_stream
            &&& part.data.len() > 0
            &&& part.data + left == sender.buffer@
            &&& part.data.len() <= stream.available_window
            &&& left.len() == 0 || part.data.len() == stream.available_window
        }),
{
    let n = sendable(stream.available_window, sender.buffer@.len() as int);
    let part = DataFrameView {
        stream: stream.id,
        end_stream: false,
        data: sender.buffer@.take(n),
    };
    super::frame::law_data_frame_round_trip(part);
    assert(sender.buffer@.take(n) + sender.buffer@.skip(n) =~= sender.buffer@);
}

/// What a stream tells the connection about its data: window is requested exactly if some is needed
/// and the own window is not used up, as much as both allow, and there is exactly one frame if some
/// of the aquired window and of the data is left, else none.
pub proof fn law_body_asks_for_window(stream: Stream, sender: BodySender)
    ensures
        ({
            let reqs = body_reqs(stream, sender);
            let asks = sender.buffer@.len() > 0 && sender.window_needed > 0 && stream.window > 0;
            let sends = sender.buffer@.len() > 0 && stream.available_window > 0;
            &&& asks ==> reqs.len() > 0 && (reqs[0] matches ConnectionReqView::GetWindow(id, amount)
                && {
                &&& id == stream.id
                &&& amount <= stream.window && amount <= sender.window_needed
                &&& amount == stream.window || amount == sender.window_needed
                &&& amount == requested_window(stream, sender)
            })
            &&& !asks ==> requested_window(stream, sender) == 0
            &&& sends ==> reqs.len() > 0 && reqs.last() is Frame
            &&& !sends ==> sendable(stream.available_window, sender.buffer@.len() as int) == 0
            &&& reqs.len() == (if asks {
                1int
            } else {
                0
            }) + (if sends {
                1int
            } else {
                0
            })
        }),
{
}

/// A body ends with an empty frame of the stream which ends it.
pub proof fn law_end_of_body_is_read_back(id: u32)
    requires
        id != 0,
    ensures
        end_of_body(id) matches ConnectionReqView::Frame(frame) && DataFrameView::decoded(
            frame,
        ) matches Ok(last) && last.stream == id && last.end_stream && last.data.len() == 0,
{
    super::frame::law_data_frame_round_trip(
        DataFrameView { stream: id, end_stream: true, data: Seq::empty() },
    );
}

/// Where a stream is gone, the connection only fails if it tried to hand out some of its window.
pub proof fn law_undelivered_message(req: StreamReqView)
    ensures
        req.undelivered() is Connection <==> req is AvailableWindow,
        req.undelivered() is Stream ==> req.undelivered() == H2Error::Stream(
            ErrorCode::StreamClosed,
        ),
{
}

/// What is credited is exactly the length of the data.
pub proof fn law_credit_is_exact(len: int)
    requires
        len >= 0,
    ensures
        credit(len) matches Some(amount) ==> amount == len,
        credit(len) is None <==> len >= 0x8000_0000,
{
}

/// The reader of a request body, which gets the data frames of the stream.
#[derive(Debug)]
pub struct BackgroundRead {
    pub buffer: Option<Buffer>,
}

/// The amount by which the window of the peer grows after a frame of the given length was read.
pub open spec fn credit(len: int) -> Option<i32> {
    if len <= i32::MAX {
        Some(len as i32)
    } else {
        None
    }
}

/// What the reader of a request body does next.
#[derive(Debug)]
pub enum BodyRead {
    /// Hand out this data. If there is a credit, the stream is told that it was read.
    Deliver(Vec<u8>, Option<i32>),
    /// Wait for the next data frame. If there is a credit, the stream is told that it was read.
    Wait(Option<i32>),
}

impl BackgroundRead {
    /// The buffer is intact.
    pub open spec fn wf(&self) -> bool {
        self.buffer matches Some(buffer) ==> buffer.wf()
    }

    /// A reader without data.
    pub fn new() -> (read: Self)
        ensures
            read.buffer is None,
    {
        BackgroundRead { buffer: None }
    }

    /// The amount by which the window of the peer grows.
    fn credit_of(len: usize) -> (amount: Option<i32>)
        ensures
            amount == credit(len as int),
    {
        if len <= i32::MAX as usize {
            Some(len as i32)
        } else {
            None
        }
    }

    /// Takes up to `want` bytes out of the buffer. The buffer is kept as long as it has unread
    /// bytes, and its whole length is credited when it is dropped.
    fn read_from(&mut self, buffer: Buffer, want: usize) -> (ret: (Vec<u8>, Option<i32>))
        requires
            buffer.wf(),
        ensures
            final(self).wf(),
            ({
                let n = crate::buffer::min(buffer@.len() as int, want as int);
                &&& ret.0@ == buffer@.take(n)
                &&& if n < buffer@.len() {
                    &&& ret.1 is None
                    &&& final(self).buffer matches Some(rest)
                    &&& rest@ == buffer@.skip(n)
                    &&& rest.storage() == buffer.storage()
                } else {
                    &&& ret.1 == credit(buffer.storage().len() as int)
                    &&& final(self).buffer is None
                }
            }),
    {
        let mut buffer = buffer;
        let ghost before = buffer;
        let _inner_len: usize = buffer.inner().len();
        let amount: usize = min_len(buffer.available_for_read(), want);
        let data: Vec<u8> = vstd::slice::slice_to_vec(
            vstd::slice::slice_subrange(buffer.as_ref(), 0, amount),
        );
        proof {
            assert(data@ =~= before@.take(amount as int));
        }
        buffer.progress(amount);
        // Drop it if it is now empty, otherwise add it again.
        if buffer.available_for_read() > 0 {
            self.buffer = Some(buffer);

            (data, None)
        } else {
            self.buffer = None;
            buffer.wipe();

            (data, Self::credit_of(buffer.inner().len()))
        }
    }

    /// Finds out what to do to read up to `want` bytes.
    pub fn next_step(&mut self, want: usize) -> (step: BodyRead)
        requires
            old(self).wf(),
        ensures
            final(self).wf(),
            match old(self).buffer {
                Some(buffer) => if buffer@.len() > 0 {
                    let n = crate::buffer::min(buffer@.len() as int, want as int);
                    &&& step matches BodyRead::Deliver(data, amount)
                    &&& data@ == buffer@.take(n)
                    &&& if n < buffer@.len() {
                        &&& amount is None
                        &&& final(self).buffer matches Some(rest)
                        &&& rest@ == buffer@.skip(n)
                        &&& rest.storage() == buffer.storage()
                    } else {
                        &&& amount == credit(buffer.storage().len() as int)
                        &&& final(self).buffer is None
                    }
                } else {
                    &&& step matches BodyRead::Wait(amount)
                    &&& amount == credit(buffer.storage().len() as int)
                    &&& final(self).buffer is None
                },
                None => {
                    &&& step matches BodyRead::Wait(amount)
                    &&& amount is None
                    &&& final(self).buffer is None
                },
            },
    {
        match self.buffer.take() {
            Some(mut buffer) => {
                if buffer.available_for_read() > 0 {
                    let (data, amount): (Vec<u8>, Option<i32>) = self.read_from(buffer, want);

                    BodyRead::Deliver(data, amount)
                } else {
                    // We forgot to drop the buffer. Drop it and proceed.
                    buffer.wipe();

                    BodyRead::Wait(Self::credit_of(buffer.inner().len()))
                }
            },
            None => BodyRead::Wait(None),
        }
    }

    /// Takes in the data of the next frame, or `None` if there will be no more. Returns the data to
    /// hand out, where no data at all is the end of the body, and what the stream is told.
    pub fn received(&mut self, data: Option<Vec<u8>>, want: usize) -> (ret: (
        Vec<u8>,
        Option<i32>,
    ))
        requires
            old(self).buffer is None,
        ensures
            final(self).wf(),
            match data {
                Some(data) => if data@.len() > 0 {
                    let n = crate::buffer::min(data@.len() as int, want as int);
                    &&& ret.0@ == data@.take(n)
                    &&& if n < data@.len() {
                        &&& ret.1 is None
                        &&& final(self).buffer matches Some(rest)
                        &&& rest@ == data@.skip(n)
                        &&& rest.storage() == data@
                    } else {
                        &&& ret.1 == credit(data@.len() as int)
                        &&& final(self).buffer is None
                    }
                } else {
                    ret.0@.len() == 0 && ret.1 is None && final(self).buffer is None
                },
                None => ret.0@.len() == 0 && ret.1 is None && final(self).buffer is None,
            },
    {
        match data {
            Some(data) => {
                let mut buffer: Buffer = Buffer::from(data);
                if buffer.available_for_read() > 0 {
                    self.read_from(buffer, want)
                } else {
                    buffer.wipe();

                    (Vec::new(), None)
                }
            },
            None => (Vec::new(), None),
        }
    }

    /// The credit for the data which is given up when the body is dropped.
    pub fn abandon(&mut self) -> (amount: Option<i32>)
        ensures
            final(self).buffer is None,
            amount == match old(self).buffer {
                Some(buffer) => credit(buffer.storage().len() as int),
                None => None,
            },
    {
        match self.buffer.take() {
            Some(mut buffer) => {
                buffer.wipe();

                Self::credit_of(buffer.inner().len())
            },
            None => None,
        }
    }

    /// The credit for a frame which nobody will read.
    pub fn abandon_frame(len: usize) -> (amount: Option<i32>)
        ensures
            amount == credit(len as int),
    {
        Self::credit_of(len)
    }
}

} // verus!
