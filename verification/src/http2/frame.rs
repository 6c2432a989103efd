//! The frames of HTTP/2 and how they are stored in bytes.

use vstd::prelude::*;

use super::error::{ErrorCode, H2Error, H2Result};
use super::settings::{Settings, SettingsIdent};
use crate::bytes::{push_u24, push_u32, push_u64, push_u16, read_u16, read_u24, read_u32, read_u64};

verus! {

/// The first number which is too big for a stream identifier.
pub const STREAM_ID_LIMIT: u32 = 0x8000_0000;

/// The length of a frame header.
pub const FRAME_HEADER_LEN: usize = 9;

/// The type of a frame.
#[derive(Debug, Clone, Copy, PartialEq, Eq, Structural)]
pub enum FrameType {
    Data,
    Headers,
    Priority,
    RstStream,
    Settings,
    PushPromise,
    Ping,
    GoAway,
    WindowUpdate,
    Continuation,
}

impl FrameType {
    /// The number by which the type is known on the wire.
    pub open spec fn number(self) -> u8 {
        match self {
            FrameType::Data => 0,
            FrameType::Headers => 1,
            FrameType::Priority => 2,
            FrameType::RstStream => 3,
            FrameType::Settings => 4,
            FrameType::PushPromise => 5,
            FrameType::Ping => 6,
            FrameType::GoAway => 7,
            FrameType::WindowUpdate => 8,
            FrameType::Continuation => 9,
        }
    }

    /// The type with the number `n`.
    pub open spec fn numbered(n: u8) -> Option<FrameType> {
        if n == 0 {
            Some(FrameType::Data)
        } else if n == 1 {
            Some(FrameType::Headers)
        } else if n == 2 {
            Some(FrameType::Priority)
        } else if n == 3 {
            Some(FrameType::RstStream)
        } else if n == 4 {
            Some(FrameType::Settings)
        } else if n == 5 {
            Some(FrameType::PushPromise)
        } else if n == 6 {
            Some(FrameType::Ping)
        } else if n == 7 {
            Some(FrameType::GoAway)
        } else if n == 8 {
            Some(FrameType::WindowUpdate)
        } else if n == 9 {
            Some(FrameType::Continuation)
        } else {
            None
        }
    }

    /// Converts the type into its number.
    pub fn as_u8(self) -> (n: u8)
        ensures
            n == self.number(),
            Self::numbered(n) == Some(self),
    {
        match self {
            FrameType::Data => 0,
            FrameType::Headers => 1,
            FrameType::Priority => 2,
            FrameType::RstStream => 3,
            FrameType::Settings => 4,
            FrameType::PushPromise => 5,
            FrameType::Ping => 6,
            FrameType::GoAway => 7,
            FrameType::WindowUpdate => 8,
            FrameType::Continuation => 9,
        }
    }

    /// Looks up the type with the number `n`.
    pub fn from_u8(n: u8) -> (ty: Option<Self>)
        ensures
            ty == Self::numbered(n),
            ty is None <==> n > 9,
    {
        match n {
            0 => Some(FrameType::Data),
            1 => Some(FrameType::Headers),
            2 => Some(FrameType::Priority),
            3 => Some(FrameType::RstStream),
            4 => Some(FrameType::Settings),
            5 => Some(FrameType::PushPromise),
            6 => Some(FrameType::Ping),
            7 => Some(FrameType::GoAway),
            8 => Some(FrameType::WindowUpdate),
            9 => Some(FrameType::Continuation),
            _ => None,
        }
    }
}

/// The flags of a frame.
#[derive(Debug, Clone, Copy, PartialEq, Eq, Structural)]
pub struct Flags {
    pub bits: u8,
}

impl Flags {
    /// No more DATA or HEADERS frame follows on the stream.
    pub const END_STREAM: u8 = 1;

    /// The frame acknowledges a frame of the other side.
    pub const ACK: u8 = 1;

    /// No CONTINUATION frame follows.
    pub const END_HEADERS: u8 = 4;

    /// The payload starts with the length of the padding at its end.
    pub const PADDED: u8 = 8;

    /// The payload of a HEADERS frame starts with a priority.
    pub const PRIORITY: u8 = 32;

    /// All flags which are known.
    pub const ALL: u8 = 45;

    /// Whether all bits of `flag` are set.
    pub open spec fn has(self, flag: u8) -> bool {
        self.bits & flag == flag
    }

    /// No flag at all.
    pub fn empty() -> (flags: Self)
        ensures
            flags == (Flags { bits: 0 }),
    {
        Flags { bits: 0 }
    }

    /// Drops all bits which do not belong to a known flag.
    pub fn from_bits_truncate(bits: u8) -> (flags: Self)
        ensures
            flags == (Flags { bits: bits & Flags::ALL }),
    {
        Flags { bits: bits & Flags::ALL }
    }

    /// The flags as they are stored in a frame header.
    pub fn bits(&self) -> (bits: u8)
        ensures
            bits == self.bits,
    {
        self.bits
    }

    /// Tests whether all bits of `flag` are set.
    pub fn contains(&self, flag: u8) -> (ret: bool)
        ensures
            ret == self.has(flag),
    {
        self.bits & flag == flag
    }

    /// Sets all bits of `flag`.
    pub fn union(self, flag: u8) -> (flags: Self)
        ensures
            flags == (Flags { bits: self.bits | flag }),
    {
        Flags { bits: self.bits | flag }
    }
}

/// The value of `flag` where `set` holds, else no bit.
pub open spec fn flag_if(set: bool, flag: u8) -> u8 {
    if set {
        flag
    } else {
        0
    }
}

/// The flags built out of END_STREAM (or ACK) and END_HEADERS contain what went in.
pub proof fn law_flags_hold_what_was_set(first: bool, headers: bool)
    ensures
        (Flags { bits: flag_if(first, Flags::END_STREAM) | flag_if(headers, Flags::END_HEADERS) }).has(
            Flags::END_STREAM,
        ) == first,
        (Flags { bits: flag_if(first, Flags::END_STREAM) | flag_if(headers, Flags::END_HEADERS) }).has(
            Flags::END_HEADERS,
        ) == headers,
        !(Flags { bits: flag_if(first, Flags::END_STREAM) | flag_if(headers, Flags::END_HEADERS) }).has(
            Flags::PADDED,
        ),
        !(Flags { bits: flag_if(first, Flags::END_STREAM) | flag_if(headers, Flags::END_HEADERS) }).has(
            Flags::PRIORITY,
        ),
        (flag_if(first, Flags::END_STREAM) | flag_if(headers, Flags::END_HEADERS)) & Flags::ALL
            == flag_if(first, Flags::END_STREAM) | flag_if(headers, Flags::END_HEADERS),
        flag_if(first, Flags::END_STREAM) | 0 == flag_if(first, Flags::END_STREAM),
        0 | flag_if(first, Flags::END_STREAM) == flag_if(first, Flags::END_STREAM),
        0 | flag_if(headers, Flags::END_HEADERS) == flag_if(headers, Flags::END_HEADERS),
{
    assert(forall|a: u8, b: u8|
        #![trigger a | b]
        (a == 0 || a == 1) && (b == 0 || b == 4) ==> {
            &&& ((a | b) & 1 == 1) == (a == 1)
            &&& ((a | b) & 4 == 4) == (b == 4)
            &&& (a | b) & 8 != 8
            &&& (a | b) & 32 != 32
            &&& (a | b) & 45 == a | b
            &&& (b == 0 ==> a | b == a)
            &&& (a == 0 ==> a | b == b)
        }) by (bit_vector);
    assert(0u8 | 1u8 == 1u8) by (bit_vector);
    assert(0u8 | 0u8 == 0u8) by (bit_vector);
}

/// What a frame with its type, flags, stream and payload holds.
#[verifier::ext_equal]
pub struct FrameView {
    pub frame_type: FrameType,
    pub flags: Flags,
    pub stream: u32,
    pub payload: Seq<u8>,
}

/// The result `r` with its value seen through the view.
pub open spec fn result_view<T: View, E>(r: Result<T, E>) -> Result<T::V, E> {
    match r {
        Ok(value) => Ok(value@),
        Err(err) => Err(err),
    }
}

/// `n` without its most significant bit.
pub open spec fn without_top_bit(n: u32) -> u32 {
    if n >= STREAM_ID_LIMIT {
        (n - STREAM_ID_LIMIT) as u32
    } else {
        n
    }
}

/// The connection error which reports a call with a frame of another type.
pub open spec fn wrong_type<T>() -> H2Result<T> {
    Err(H2Error::Connection(ErrorCode::InternalError))
}

/// The priority of a stream.
#[derive(Debug, Clone, Copy)]
pub struct Priority {
    pub stream_dependency: u32,
    pub exclusive: bool,
    pub weight: u8,
}

impl Priority {
    /// The priority stored in the first five bytes of `s`.
    pub open spec fn decoded(s: Seq<u8>) -> Priority {
        Priority {
            stream_dependency: without_top_bit(crate::bytes::be_u32(s)),
            exclusive: crate::bytes::be_u32(s) >= STREAM_ID_LIMIT,
            weight: s[4],
        }
    }

    /// The five bytes in which the priority is stored.
    pub open spec fn encoded(self) -> Seq<u8> {
        let dependency = without_top_bit(self.stream_dependency);
        crate::bytes::u32_bytes(
            if self.exclusive {
                (dependency + STREAM_ID_LIMIT) as u32
            } else {
                dependency
            },
        ).push(self.weight)
    }

    /// Reads the priority at the begin of `slice`.
    pub fn from(slice: &[u8]) -> (priority: Self)
        requires
            slice@.len() >= 5,
        ensures
            priority == Priority::decoded(slice@),
    {
        let stream_dependency: u32 = read_u32(slice);
        let weight: u8 = slice[4];
        if stream_dependency >= STREAM_ID_LIMIT {
            Priority {
                stream_dependency: stream_dependency - STREAM_ID_LIMIT,
                exclusive: true,
                weight,
            }
        } else {
            Priority { stream_dependency, exclusive: false, weight }
        }
    }
}

impl From<Priority> for Vec<u8> {
    fn from(priority: Priority) -> (payload: Self)
        ensures
            payload@ == priority.encoded(),
    {
        let mut payload: Vec<u8> = Vec::with_capacity(5);
        let dependency: u32 = if priority.stream_dependency >= STREAM_ID_LIMIT {
            priority.stream_dependency - STREAM_ID_LIMIT
        } else {
            priority.stream_dependency
        };
        let stream_dependency: u32 = if priority.exclusive {
            dependency + STREAM_ID_LIMIT
        } else {
            dependency
        };
        push_u32(&mut payload, stream_dependency);
        payload.push(priority.weight);
        proof {
            assert(payload@ =~= priority.encoded());
        }

        payload
    }
}

impl vstd::std_specs::convert::FromSpecImpl<Priority> for Vec<u8> {
    open spec fn obeys_from_spec() -> bool {
        false
    }

    open spec fn from_spec(_priority: Priority) -> Self {
        arbitrary()
    }
}

/// Reading a stored priority gives it back, as long as the dependency fits in a stream identifier.
pub proof fn law_priority_round_trip(priority: Priority, tail: Seq<u8>)
    requires
        priority.stream_dependency < STREAM_ID_LIMIT,
    ensures
        Priority::decoded(priority.encoded() + tail) == priority,
{
    let n = if priority.exclusive {
        (priority.stream_dependency + STREAM_ID_LIMIT) as u32
    } else {
        priority.stream_dependency
    };
    let s = priority.encoded() + tail;
    assert(s =~= crate::bytes::u32_bytes(n) + (seq![priority.weight] + tail));
    crate::bytes::law_u32_round_trip(n, seq![priority.weight] + tail);
}

/// Carries body data.
#[derive(Debug, Clone)]
pub struct DataFrame {
    pub stream: u32,
    pub end_stream: bool,
    pub data: Vec<u8>,
}

/// What a [`DataFrame`] holds.
#[verifier::ext_equal]
pub struct DataFrameView {
    pub stream: u32,
    pub end_stream: bool,
    pub data: Seq<u8>,
}

impl View for DataFrame {
    type V = DataFrameView;

    open spec fn view(&self) -> DataFrameView {
        DataFrameView { stream: self.stream, end_stream: self.end_stream, data: self.data@ }
    }
}

impl DataFrameView {
    /// How `frame` reads as a data frame.
    pub open spec fn decoded(frame: FrameView) -> H2Result<DataFrameView> {
        if frame.frame_type != FrameType::Data {
            wrong_type()
        } else if frame.stream == 0 {
            Err(H2Error::Connection(ErrorCode::ProtocolError))
        } else {
            Ok(
                DataFrameView {
                    stream: frame.stream,
                    end_stream: frame.flags.has(Flags::END_STREAM),
                    data: frame.payload,
                },
            )
        }
    }

    /// The frame which carries the data.
    pub open spec fn encoded(self) -> FrameView {
        FrameView {
            frame_type: FrameType::Data,
            flags: Flags { bits: flag_if(self.end_stream, Flags::END_STREAM) },
            stream: self.stream,
            payload: self.data,
        }
    }
}

impl TryFrom<Frame> for DataFrame {
    type Error = H2Error;

    fn try_from(frame: Frame) -> (ret: H2Result<Self>)
        ensures
            result_view(ret) == DataFrameView::decoded(frame@),
    {
        if frame.header.frame_type != FrameType::Data {
            return Err(H2Error::Connection(ErrorCode::InternalError));
        }
        if frame.header.stream == 0 {
            return Err(H2Error::Connection(ErrorCode::ProtocolError));
        }

        Ok(
            DataFrame {
                stream: frame.header.stream,
                end_stream: frame.header.flags.contains(Flags::END_STREAM),
                data: frame.payload,
            },
        )
    }
}

impl vstd::std_specs::convert::TryFromSpecImpl<Frame> for DataFrame {
    open spec fn obeys_try_from_spec() -> bool {
        false
    }

    open spec fn try_from_spec(_frame: Frame) -> H2Result<Self> {
        arbitrary()
    }
}

impl From<DataFrame> for Frame {
    fn from(frame: DataFrame) -> (ret: Self)
        ensures
            ret@ == frame@.encoded(),
    {
        let mut flags = Flags::empty();
        if frame.end_stream {
            flags = flags.union(Flags::END_STREAM);
        }
        proof {
            law_flags_hold_what_was_set(frame.end_stream, false);
        }

        Frame {
            header: FrameHeader { frame_type: FrameType::Data, flags, stream: frame.stream },
            payload: frame.data,
        }
    }
}

impl vstd::std_specs::convert::FromSpecImpl<DataFrame> for Frame {
    open spec fn obeys_from_spec() -> bool {
        false
    }

    open spec fn from_spec(_frame: DataFrame) -> Self {
        arbitrary()
    }
}

/// A data frame of a stream is read back as it was built.
pub proof fn law_data_frame_round_trip(frame: DataFrameView)
    requires
        frame.stream != 0,
    ensures
        DataFrameView::decoded(frame.encoded()) == Ok::<DataFrameView, H2Error>(frame),
{
    law_flags_hold_what_was_set(frame.end_stream, false);
}

/// Opens a stream with the first part of its header block.
#[derive(Debug, Clone)]
pub struct HeadersFrame {
    pub stream: u32,
    pub end_stream: bool,
    pub end_headers: bool,
    pub priority: Option<Priority>,
    pub data: Vec<u8>,
}

/// What a [`HeadersFrame`] holds.
#[verifier::ext_equal]
pub struct HeadersFrameView {
    pub stream: u32,
    pub end_stream: bool,
    pub end_headers: bool,
    pub priority: Option<Priority>,
    pub data: Seq<u8>,
}

impl View for HeadersFrame {
    type V = HeadersFrameView;

    open spec fn view(&self) -> HeadersFrameView {
        HeadersFrameView {
            stream: self.stream,
            end_stream: self.end_stream,
            end_headers: self.end_headers,
            priority: self.priority,
            data: self.data@,
        }
    }
}

impl HeadersFrameView {
    /// Where the priority starts in the payload of a frame with the given flags.
    pub open spec fn priority_begin(flags: Flags) -> int {
        if flags.has(Flags::PADDED) {
            8
        } else {
            0
        }
    }

    /// Whether the payload holds a complete priority, if one is announced.
    pub open spec fn has_room(frame: FrameView) -> bool {
        frame.frame_type == FrameType::Headers && frame.stream != 0 && frame.flags.has(
            Flags::PRIORITY,
        ) ==> frame.payload.len() >= Self::priority_begin(frame.flags) + 5
    }

    /// How `frame` reads as a headers frame.
    pub open spec fn decoded(frame: FrameView) -> H2Result<HeadersFrameView> {
        if frame.frame_type != FrameType::Headers {
            wrong_type()
        } else if frame.stream == 0 {
            Err(H2Error::Connection(ErrorCode::ProtocolError))
        } else {
            let begin = Self::priority_begin(frame.flags);
            let prioritized = frame.flags.has(Flags::PRIORITY);
            Ok(
                HeadersFrameView {
                    stream: frame.stream,
                    end_stream: frame.flags.has(Flags::END_STREAM),
                    end_headers: frame.flags.has(Flags::END_HEADERS),
                    priority: if prioritized {
                        Some(Priority::decoded(frame.payload.subrange(begin, begin + 5)))
                    } else {
                        None
                    },
                    data: if prioritized {
                        frame.payload.skip(begin + 5)
                    } else {
                        frame.payload
                    },
                },
            )
        }
    }

    /// The frame which carries the header block. A priority is put in front of the block, but
    /// not announced in the flags.
    pub open spec fn encoded(self) -> FrameView {
        FrameView {
            frame_type: FrameType::Headers,
            flags: Flags {
                bits: flag_if(self.end_stream, Flags::END_STREAM) | flag_if(
                    self.end_headers,
                    Flags::END_HEADERS,
                ),
            },
            stream: self.stream,
            payload: match self.priority {
                Some(priority) => priority.encoded() + self.data,
                None => self.data,
            },
        }
    }
}

impl HeadersFrame {
    /// Tells whether the payload holds a complete priority, if one is announced.
    pub fn has_room(frame: &Frame) -> (ret: bool)
        ensures
            ret == HeadersFrameView::has_room(frame@),
    {
        let begin: usize = if frame.header.flags.contains(Flags::PADDED) {
            8
        } else {
            0
        };

        frame.header.frame_type != FrameType::Headers || frame.header.stream == 0
            || !frame.header.flags.contains(Flags::PRIORITY) || frame.payload.len() >= begin + 5
    }

    /// Reads `frame` as a headers frame.
    pub fn try_from(frame: Frame) -> (ret: H2Result<Self>)
        requires
            HeadersFrameView::has_room(frame@),
        ensures
            result_view(ret) == HeadersFrameView::decoded(frame@),
    {
        if frame.header.frame_type != FrameType::Headers {
            return Err(H2Error::Connection(ErrorCode::InternalError));
        }
        if frame.header.stream == 0 {
            return Err(H2Error::Connection(ErrorCode::ProtocolError));
        }
        let Frame { header, mut payload } = frame;
        let padded = header.flags.contains(Flags::PADDED);
        let priority: Option<Priority> = if header.flags.contains(Flags::PRIORITY) {
            let begin: usize = if padded {
                8
            } else {
                0
            };
            let priority = Priority::from(
                vstd::slice::slice_subrange(payload.as_slice(), begin, begin + 5),
            );
            payload = payload.split_off(begin + 5);
            proof {
                assert(payload@ =~= frame@.payload.skip(begin + 5));
            }

            Some(priority)
        } else {
            None
        };

        Ok(
            HeadersFrame {
                stream: header.stream,
                end_stream: header.flags.contains(Flags::END_STREAM),
                end_headers: header.flags.contains(Flags::END_HEADERS),
                priority,
                data: payload,
            },
        )
    }
}

impl From<HeadersFrame> for Frame {
    fn from(frame: HeadersFrame) -> (ret: Self)
        ensures
            ret@ == frame@.encoded(),
    {
        let ghost view = frame@;
        let mut flags = Flags::empty();
        proof {
            law_flags_hold_what_was_set(frame.end_stream, frame.end_headers);
            law_flags_hold_what_was_set(false, frame.end_headers);
            law_flags_hold_what_was_set(frame.end_stream, false);
        }
        if frame.end_stream {
            flags = flags.union(Flags::END_STREAM);
        }
        if frame.end_headers {
            flags = flags.union(Flags::END_HEADERS);
        }
        let HeadersFrame { stream, end_stream: _, end_headers: _, priority, mut data } = frame;
        let payload: Vec<u8> = match priority {
            Some(priority) => {
                let mut payload: Vec<u8> = Vec::from(priority);
                payload.append(&mut data);

                payload
            },
            None => data,
        };
        proof {
            assert(payload@ =~= view.encoded().payload);
        }

        Frame { header: FrameHeader { frame_type: FrameType::Headers, flags, stream }, payload }
    }
}

impl vstd::std_specs::convert::FromSpecImpl<HeadersFrame> for Frame {
    open spec fn obeys_from_spec() -> bool {
        false
    }

    open spec fn from_spec(_frame: HeadersFrame) -> Self {
        arbitrary()
    }
}

/// A headers frame without a priority is read back as it was built.
pub proof fn law_headers_frame_round_trip(frame: HeadersFrameView)
    requires
        frame.stream != 0,
        frame.priority is None,
    ensures
        HeadersFrameView::has_room(frame.encoded()),
        HeadersFrameView::decoded(frame.encoded()) == Ok::<HeadersFrameView, H2Error>(frame),
{
    law_flags_hold_what_was_set(frame.end_stream, frame.end_headers);
}

/// Changes the priority of a stream.
#[derive(Debug, Clone, Copy)]
pub struct PriorityFrame {
    pub stream: u32,
    pub priority: Priority,
}

impl PriorityFrame {
    /// How `frame` reads as a priority frame.
    pub open spec fn decoded(frame: FrameView) -> H2Result<PriorityFrame> {
        if frame.frame_type != FrameType::Priority {
            wrong_type()
        } else {
            Ok(PriorityFrame { stream: frame.stream, priority: Priority::decoded(frame.payload) })
        }
    }

    /// The frame which carries the priority.
    pub open spec fn encoded(self) -> FrameView {
        FrameView {
            frame_type: FrameType::Priority,
            flags: Flags { bits: 0 },
            stream: self.stream,
            payload: self.priority.encoded(),
        }
    }

    /// Reads `frame` as a priority frame.
    pub fn try_from(frame: Frame) -> (ret: H2Result<Self>)
        requires
            frame@.frame_type == FrameType::Priority ==> frame@.payload.len() >= 5,
        ensures
            ret == PriorityFrame::decoded(frame@),
    {
        if frame.header.frame_type != FrameType::Priority {
            return Err(H2Error::Connection(ErrorCode::InternalError));
        }
        let priority = Priority::from(frame.payload.as_slice());

        Ok(PriorityFrame { stream: frame.header.stream, priority })
    }
}

impl From<PriorityFrame> for Frame {
    fn from(frame: PriorityFrame) -> (ret: Self)
        ensures
            ret@ == frame.encoded(),
    {
        Frame {
            header: FrameHeader {
                frame_type: FrameType::Priority,
                flags: Flags::empty(),
                stream: frame.stream,
            },
            payload: Vec::from(frame.priority),
        }
    }
}

impl vstd::std_specs::convert::FromSpecImpl<PriorityFrame> for Frame {
    open spec fn obeys_from_spec() -> bool {
        false
    }

    open spec fn from_spec(_frame: PriorityFrame) -> Self {
        arbitrary()
    }
}

/// A priority frame is read back as it was built.
pub proof fn law_priority_frame_round_trip(frame: PriorityFrame)
    requires
        frame.priority.stream_dependency < STREAM_ID_LIMIT,
    ensures
        frame.encoded().payload.len() == 5,
        PriorityFrame::decoded(frame.encoded()) == Ok::<PriorityFrame, H2Error>(frame),
{
    law_priority_round_trip(frame.priority, Seq::empty());
    assert(frame.priority.encoded() + Seq::<u8>::empty() =~= frame.priority.encoded());
}

/// Ends a stream early.
#[derive(Debug, Clone, Copy)]
pub struct RstStreamFrame {
    pub stream: u32,
    pub error_code: Option<ErrorCode>,
}

/// The number which is sent for `code`. A missing code is sent as an internal error.
pub open spec fn sent_code(code: Option<ErrorCode>) -> u32 {
    match code {
        Some(code) => code.number(),
        None => ErrorCode::InternalError.number(),
    }
}

impl RstStreamFrame {
    /// Whether `ret` is how `frame` reads as a reset.
    pub open spec fn decodes(frame: FrameView, ret: H2Result<RstStreamFrame>) -> bool {
        if frame.frame_type != FrameType::RstStream {
            ret == wrong_type::<RstStreamFrame>()
        } else {
            &&& ret matches Ok(reset)
            &&& reset.stream == frame.stream
            &&& ErrorCode::numbered(reset.error_code, crate::bytes::be_u32(frame.payload))
        }
    }

    /// The frame which carries the reset.
    pub open spec fn encoded(self) -> FrameView {
        FrameView {
            frame_type: FrameType::RstStream,
            flags: Flags { bits: 0 },
            stream: self.stream,
            payload: crate::bytes::u32_bytes(sent_code(self.error_code)),
        }
    }

    /// Reads `frame` as a reset.
    pub fn try_from(frame: Frame) -> (ret: H2Result<Self>)
        requires
            frame@.frame_type == FrameType::RstStream ==> frame@.payload.len() == 4,
        ensures
            RstStreamFrame::decodes(frame@, ret),
    {
        if frame.header.frame_type != FrameType::RstStream {
            return Err(H2Error::Connection(ErrorCode::InternalError));
        }
        let error_code = ErrorCode::from_u32(read_u32(frame.payload.as_slice()));

        Ok(RstStreamFrame { stream: frame.header.stream, error_code })
    }
}

impl From<RstStreamFrame> for Frame {
    fn from(frame: RstStreamFrame) -> (ret: Self)
        ensures
            ret@ == frame.encoded(),
    {
        let error_code: u32 = match frame.error_code {
            Some(code) => code.as_u32(),
            None => ErrorCode::InternalError.as_u32(),
        };
        let mut payload: Vec<u8> = Vec::with_capacity(4);
        push_u32(&mut payload, error_code);
        proof {
            assert(payload@ =~= frame.encoded().payload);
        }

        Frame {
            header: FrameHeader {
                frame_type: FrameType::RstStream,
                flags: Flags::empty(),
                stream: frame.stream,
            },
            payload,
        }
    }
}

impl vstd::std_specs::convert::FromSpecImpl<RstStreamFrame> for Frame {
    open spec fn obeys_from_spec() -> bool {
        false
    }

    open spec fn from_spec(_frame: RstStreamFrame) -> Self {
        arbitrary()
    }
}

/// A reset with an error code is read back as it was built.
pub proof fn law_rst_stream_frame_round_trip(frame: RstStreamFrame, ret: H2Result<RstStreamFrame>)
    requires
        frame.error_code is Some,
        RstStreamFrame::decodes(frame.encoded(), ret),
    ensures
        frame.encoded().payload.len() == 4,
        ret == Ok::<RstStreamFrame, H2Error>(frame),
{
    let n = sent_code(frame.error_code);
    crate::bytes::law_u32_round_trip(n, Seq::empty());
    super::error::law_error_code_numbers_unique(ret->Ok_0.error_code, frame.error_code, n);
}

/// Announces settings or acknowledges the ones of the other side.
#[derive(Debug, Clone, Copy)]
pub struct SettingsFrame {
    pub ack: bool,
    pub header_table_size: Option<u32>,
    pub enable_push: Option<bool>,
    pub max_concurrent_streams: Option<u32>,
    pub initial_window_size: Option<u32>,
    pub max_frame_size: Option<u32>,
    pub max_header_list_size: Option<u32>,
}

impl Default for SettingsFrame {
    fn default() -> (frame: Self)
        ensures
            frame == SettingsFrame::listing(false, Seq::empty()),
    {
        SettingsFrame {
            ack: false,
            header_table_size: None,
            enable_push: None,
            max_concurrent_streams: None,
            initial_window_size: None,
            max_frame_size: None,
            max_header_list_size: None,
        }
    }
}

/// One entry of a settings payload: the number of the setting and its value.
pub type SettingsEntry = (u16, u32);

/// The entries which a payload holds. Trailing bytes which do not fill an entry are left out.
pub open spec fn settings_entries(payload: Seq<u8>) -> Seq<SettingsEntry> {
    Seq::new(
        payload.len() / 6,
        |i: int|
            (
                crate::bytes::be_u16(payload.subrange(6 * i, 6 * i + 6)),
                crate::bytes::be_u32(payload.subrange(6 * i, 6 * i + 6).skip(2)),
            ),
    )
}

/// The value of the setting with the number `ident` in a list of entries.
pub open spec fn setting(entries: Seq<SettingsEntry>, ident: u16) -> Option<u32>
    decreases entries.len(),
{
    if entries.len() == 0 {
        None
    } else if entries.last().0 == ident {
        Some(entries.last().1)
    } else {
        setting(entries.drop_last(), ident)
    }
}

/// Whether an entry is known and its value is acceptable.
pub open spec fn entry_ok(entry: SettingsEntry) -> bool {
    &&& SettingsIdent::numbered(entry.0) is Some
    &&& entry.0 == SettingsIdent::EnablePush.number() ==> entry.1 <= 1
}

/// Whether a list of entries is acceptable: each setting is known, is in range and comes at most
/// once.
pub open spec fn entries_ok(entries: Seq<SettingsEntry>) -> bool {
    &&& forall|i: int| 0 <= i < entries.len() ==> entry_ok(#[trigger] entries[i])
    &&& forall|i: int, j: int|
        0 <= i < j < entries.len() ==> (#[trigger] entries[i]).0 != (#[trigger] entries[j]).0
}

/// The entry for a setting, if it has a value.
pub open spec fn entry_bytes(ident: SettingsIdent, value: Option<u32>) -> Seq<u8> {
    match value {
        Some(value) => crate::bytes::u16_bytes(ident.number()) + crate::bytes::u32_bytes(value),
        None => Seq::empty(),
    }
}

/// The number in which a switch is stored.
pub open spec fn switch_value(switch: Option<bool>) -> Option<u32> {
    match switch {
        Some(true) => Some(1),
        Some(false) => Some(0),
        None => None,
    }
}

impl SettingsFrame {
    /// The frame which holds exactly the listed settings.
    pub open spec fn listing(ack: bool, entries: Seq<SettingsEntry>) -> SettingsFrame {
        SettingsFrame {
            ack,
            header_table_size: setting(entries, SettingsIdent::HeaderTableSize.number()),
            enable_push: match setting(entries, SettingsIdent::EnablePush.number()) {
                Some(value) => Some(value == 1),
                None => None,
            },
            max_concurrent_streams: setting(entries, SettingsIdent::MaxConcurrentStreams.number()),
            initial_window_size: setting(entries, SettingsIdent::InitialWindowSize.number()),
            max_frame_size: setting(entries, SettingsIdent::MaxFrameSize.number()),
            max_header_list_size: setting(entries, SettingsIdent::MaxHeaderListSize.number()),
        }
    }

    /// How `frame` reads as a settings frame.
    pub open spec fn decoded(frame: FrameView) -> H2Result<SettingsFrame> {
        if frame.frame_type != FrameType::Settings {
            wrong_type()
        } else if frame.flags.has(Flags::ACK) {
            if frame.payload.len() != 0 {
                Err(H2Error::Connection(ErrorCode::FrameSizeError))
            } else {
                Ok(Self::listing(true, Seq::empty()))
            }
        } else if entries_ok(settings_entries(frame.payload)) {
            Ok(Self::listing(false, settings_entries(frame.payload)))
        } else {
            Err(H2Error::Connection(ErrorCode::ProtocolError))
        }
    }

    /// The entries of the frame, one after the other.
    pub open spec fn payload(self) -> Seq<u8> {
        entry_bytes(SettingsIdent::HeaderTableSize, self.header_table_size) + entry_bytes(
            SettingsIdent::EnablePush,
            switch_value(self.enable_push),
        ) + entry_bytes(SettingsIdent::MaxConcurrentStreams, self.max_concurrent_streams)
            + entry_bytes(SettingsIdent::InitialWindowSize, self.initial_window_size) + entry_bytes(
            SettingsIdent::MaxFrameSize,
            self.max_frame_size,
        ) + entry_bytes(SettingsIdent::MaxHeaderListSize, self.max_header_list_size)
    }

    /// The frame which carries the settings.
    pub open spec fn encoded(self) -> FrameView {
        FrameView {
            frame_type: FrameType::Settings,
            flags: Flags { bits: flag_if(self.ack, Flags::ACK) },
            stream: 0,
            payload: self.payload(),
        }
    }
}

impl From<Settings> for SettingsFrame {
    fn from(settings: Settings) -> (frame: Self) {
        SettingsFrame {
            ack: false,
            header_table_size: Some(settings.header_table_size),
            enable_push: Some(settings.enable_push),
            max_concurrent_streams: settings.max_concurrent_streams,
            initial_window_size: Some(settings.initial_window_size),
            max_frame_size: Some(settings.max_frame_size),
            max_header_list_size: settings.max_header_list_size,
        }
    }
}

impl vstd::std_specs::convert::FromSpecImpl<Settings> for SettingsFrame {
    open spec fn obeys_from_spec() -> bool {
        true
    }

    open spec fn from_spec(settings: Settings) -> Self {
        SettingsFrame {
            ack: false,
            header_table_size: Some(settings.header_table_size),
            enable_push: Some(settings.enable_push),
            max_concurrent_streams: settings.max_concurrent_streams,
            initial_window_size: Some(settings.initial_window_size),
            max_frame_size: Some(settings.max_frame_size),
            max_header_list_size: settings.max_header_list_size,
        }
    }
}

/// The last entry decides about its own setting and leaves the others as they were.
proof fn lemma_setting_push(entries: Seq<SettingsEntry>, entry: SettingsEntry)
    ensures
        forall|ident: u16| #[trigger]
            setting(entries.push(entry), ident) == if ident == entry.0 {
                Some(entry.1)
            } else {
                setting(entries, ident)
            },
{
    assert(entries.push(entry).drop_last() =~= entries);
}

/// A setting has a value exactly where it is listed.
proof fn lemma_setting_listed(entries: Seq<SettingsEntry>, ident: u16)
    ensures
        setting(entries, ident) is Some <==> exists|i: int|
            0 <= i < entries.len() && (#[trigger] entries[i]).0 == ident,
    decreases entries.len(),
{
    if entries.len() > 0 {
        lemma_setting_listed(entries.drop_last(), ident);
        if entries.last().0 == ident {
            assert(entries[entries.len() - 1].0 == ident);
        } else if setting(entries, ident) is Some {
            let i = choose|i: int|
                0 <= i < entries.drop_last().len() && (#[trigger] entries.drop_last()[i]).0 == ident;
            assert(entries[i].0 == ident);
        } else {
            assert forall|i: int| 0 <= i < entries.len() implies (#[trigger] entries[i]).0
                != ident by {
                if i < entries.len() - 1 {
                    assert(entries.drop_last()[i].0 != ident);
                }
            }
        }
    }
}

impl TryFrom<Frame> for SettingsFrame {
    type Error = H2Error;

    fn try_from(frame: Frame) -> (ret: H2Result<Self>) {
        if frame.header.frame_type != FrameType::Settings {
            return Err(H2Error::Connection(ErrorCode::InternalError));
        }
        let mut settings_frame = SettingsFrame::default();
        if frame.header.flags.contains(Flags::ACK) {
            settings_frame.ack = true;
            if frame.payload.len() != 0 {
                return Err(H2Error::Connection(ErrorCode::FrameSizeError));
            }
            return Ok(settings_frame);
        }
        // Each setting is parsed only once. An unknown setting and a repeated setting are treated
        // as a connection error of type protocol error.
        let ghost entries = settings_entries(frame.payload@);
        let count: usize = frame.payload.len() / 6;
        let mut index: usize = 0;
        proof {
            assert(entries.take(0) =~= Seq::empty());
        }
        while index < count
            invariant
                index <= count,
                count == frame.payload@.len() / 6,
                frame@.frame_type == FrameType::Settings,
                !frame@.flags.has(Flags::ACK),
                entries == settings_entries(frame.payload@),
                settings_frame == SettingsFrame::listing(false, entries.take(index as int)),
                entries_ok(entries.take(index as int)),
            decreases count - index,
        {
            let chunk: &[u8] = vstd::slice::slice_subrange(
                frame.payload.as_slice(),
                6 * index,
                6 * index + 6,
            );
            let number: u16 = read_u16(chunk);
            let value_bytes: &[u8] = vstd::slice::slice_subrange(chunk, 2, 6);
            let value: u32 = read_u32(value_bytes);
            let ghost before = entries.take(index as int);
            let ghost entry = entries[index as int];
            proof {
                assert(value_bytes@ =~= frame.payload@.subrange(6 * index, 6 * index + 6).skip(2));
                assert(entry == (number, value));
                assert(entries.take(index + 1) =~= before.push(entry));
                lemma_setting_push(before, entry);
                lemma_setting_listed(before, number);
                lemma_entries_push(entries, index as int);
            }
            let ident: SettingsIdent = match SettingsIdent::from_u16(number) {
                Some(ident) => ident,
                None => return Err(H2Error::Connection(ErrorCode::ProtocolError)),
            };
            match ident {
                SettingsIdent::HeaderTableSize => {
                    if settings_frame.header_table_size.is_some() {
                        return Err(H2Error::Connection(ErrorCode::ProtocolError));
                    }
                    settings_frame.header_table_size = Some(value);
                },
                SettingsIdent::EnablePush => {
                    if settings_frame.enable_push.is_some() {
                        return Err(H2Error::Connection(ErrorCode::ProtocolError));
                    }
                    match value {
                        1 => settings_frame.enable_push = Some(true),
                        0 => settings_frame.enable_push = Some(false),
                        _ => return Err(H2Error::Connection(ErrorCode::ProtocolError)),
                    }
                },
                SettingsIdent::MaxConcurrentStreams => {
                    if settings_frame.max_concurrent_streams.is_some() {
                        return Err(H2Error::Connection(ErrorCode::ProtocolError));
                    }
                    settings_frame.max_concurrent_streams = Some(value);
                },
                SettingsIdent::InitialWindowSize => {
                    if settings_frame.initial_window_size.is_some() {
                        return Err(H2Error::Connection(ErrorCode::ProtocolError));
                    }
                    settings_frame.initial_window_size = Some(value);
                },
                SettingsIdent::MaxFrameSize => {
                    if settings_frame.max_frame_size.is_some() {
                        return Err(H2Error::Connection(ErrorCode::ProtocolError));
                    }
                    settings_frame.max_frame_size = Some(value);
                },
                SettingsIdent::MaxHeaderListSize => {
                    if settings_frame.max_header_list_size.is_some() {
                        return Err(H2Error::Connection(ErrorCode::ProtocolError));
                    }
                    settings_frame.max_header_list_size = Some(value);
                },
            }
            index = index + 1;
        }
        proof {
            assert(entries.take(count as int) =~= entries);
        }

        Ok(settings_frame)
    }
}

impl vstd::std_specs::convert::TryFromSpecImpl<Frame> for SettingsFrame {
    open spec fn obeys_try_from_spec() -> bool {
        true
    }

    open spec fn try_from_spec(frame: Frame) -> H2Result<Self> {
        SettingsFrame::decoded(frame@)
    }
}

/// A longer list is acceptable exactly where the shorter one and the next entry are, and the next
/// setting was not listed before.
proof fn lemma_entries_push(entries: Seq<SettingsEntry>, n: int)
    requires
        0 <= n < entries.len(),
    ensures
        entries_ok(entries.take(n + 1)) <==> {
            &&& entries_ok(entries.take(n))
            &&& entry_ok(entries[n])
            &&& setting(entries.take(n), entries[n].0) is None
        },
        entries_ok(entries) ==> entries_ok(entries.take(n + 1)),
{
    let shorter = entries.take(n);
    let longer = entries.take(n + 1);
    lemma_setting_listed(shorter, entries[n].0);
    assert(longer[n] == entries[n]);
    if entries_ok(longer) {
        assert forall|i: int| 0 <= i < shorter.len() implies entry_ok(#[trigger] shorter[i])
            && shorter[i].0 != entries[n].0 by {
            assert(longer[i] == shorter[i]);
        }
        assert forall|i: int, j: int| 0 <= i < j < shorter.len() implies (#[trigger] shorter[i]).0
            != (#[trigger] shorter[j]).0 by {
            assert(longer[i] == shorter[i] && longer[j] == shorter[j]);
        }
    }
    if entries_ok(shorter) && entry_ok(entries[n]) && setting(shorter, entries[n].0) is None {
        assert forall|i: int| 0 <= i < longer.len() implies entry_ok(#[trigger] longer[i]) by {
            if i < n {
                assert(longer[i] == shorter[i]);
            }
        }
        assert forall|i: int, j: int| 0 <= i < j < longer.len() implies (#[trigger] longer[i]).0
            != (#[trigger] longer[j]).0 by {
            assert(longer[i] == shorter[i]);
            if j < n {
                assert(longer[j] == shorter[j]);
            }
        }
    }
    if entries_ok(entries) {
        assert forall|i: int| 0 <= i < longer.len() implies entry_ok(#[trigger] longer[i]) by {
            assert(longer[i] == entries[i]);
        }
        assert forall|i: int, j: int| 0 <= i < j < longer.len() implies (#[trigger] longer[i]).0
            != (#[trigger] longer[j]).0 by {
            assert(longer[i] == entries[i] && longer[j] == entries[j]);
        }
    }
}

/// Appends the entry for a setting, if it has a value.
fn push_setting(payload: &mut Vec<u8>, ident: SettingsIdent, value: Option<u32>)
    ensures
        final(payload)@ == old(payload)@ + entry_bytes(ident, value),
{
    if let Some(value) = value {
        push_u16(payload, ident.as_u16());
        push_u32(payload, value);
    }
    proof {
        assert(payload@ =~= old(payload)@ + entry_bytes(ident, value));
    }
}

impl From<SettingsFrame> for Frame {
    fn from(frame: SettingsFrame) -> (ret: Self)
        ensures
            ret@ == frame.encoded(),
    {
        let mut flags = Flags::empty();
        proof {
            law_flags_hold_what_was_set(frame.ack, false);
        }
        if frame.ack {
            flags = flags.union(Flags::ACK);
        }
        let enable_push: Option<u32> = match frame.enable_push {
            Some(value) => if value {
                Some(1)
            } else {
                Some(0)
            },
            None => None,
        };
        let mut payload: Vec<u8> = Vec::with_capacity(36);
        push_setting(&mut payload, SettingsIdent::HeaderTableSize, frame.header_table_size);
        push_setting(&mut payload, SettingsIdent::EnablePush, enable_push);
        push_setting(
            &mut payload,
            SettingsIdent::MaxConcurrentStreams,
            frame.max_concurrent_streams,
        );
        push_setting(&mut payload, SettingsIdent::InitialWindowSize, frame.initial_window_size);
        push_setting(&mut payload, SettingsIdent::MaxFrameSize, frame.max_frame_size);
        push_setting(&mut payload, SettingsIdent::MaxHeaderListSize, frame.max_header_list_size);
        proof {
            assert(payload@ =~= frame.payload());
        }

        Frame { header: FrameHeader { frame_type: FrameType::Settings, flags, stream: 0 }, payload }
    }
}

impl vstd::std_specs::convert::FromSpecImpl<SettingsFrame> for Frame {
    open spec fn obeys_from_spec() -> bool {
        false
    }

    open spec fn from_spec(_frame: SettingsFrame) -> Self {
        arbitrary()
    }
}

/// A list of entries followed by one more setting, if it has a value.
spec fn with_entry(entries: Seq<SettingsEntry>, number: u16, value: Option<u32>) -> Seq<
    SettingsEntry,
> {
    match value {
        Some(value) => entries.push((number, value)),
        None => entries,
    }
}

/// The entries of a payload followed by one more setting.
proof fn lemma_entries_of_entry_bytes(front: Seq<u8>, ident: SettingsIdent, value: Option<u32>)
    requires
        front.len() % 6 == 0,
    ensures
        (front + entry_bytes(ident, value)).len() % 6 == 0,
        settings_entries(front + entry_bytes(ident, value)) == with_entry(
            settings_entries(front),
            ident.number(),
            value,
        ),
{
    let all = front + entry_bytes(ident, value);
    match value {
        Some(number) => {
            let n = front.len() as int / 6;
            let bytes = crate::bytes::u16_bytes(ident.number()) + crate::bytes::u32_bytes(number);
            assert(bytes.len() == 6);
            assert(all.len() == front.len() + 6);
            assert(all.len() / 6 == n + 1);
            assert(all.subrange(6 * n, 6 * n + 6) =~= bytes);
            assert(bytes.skip(2) =~= crate::bytes::u32_bytes(number) + Seq::<u8>::empty());
            crate::bytes::law_u16_round_trip(ident.number(), crate::bytes::u32_bytes(number));
            crate::bytes::law_u32_round_trip(number, Seq::empty());
            let expected = settings_entries(front).push((ident.number(), number));
            assert forall|i: int| 0 <= i < n + 1 implies settings_entries(all)[i] == expected[i] by {
                if i < n {
                    assert(all.subrange(6 * i, 6 * i + 6) =~= front.subrange(6 * i, 6 * i + 6));
                }
            }
            assert(settings_entries(all) =~= expected);
        },
        None => {
            assert(all =~= front);
        },
    }
}

/// A settings frame is read back as it was built. An acknowledgement carries no settings.
pub proof fn law_settings_frame_round_trip(frame: SettingsFrame)
    requires
        frame.ack ==> frame == SettingsFrame::listing(true, Seq::empty()),
    ensures
        frame.encoded().payload.len() % 6 == 0,
        SettingsFrame::decoded(frame.encoded()) == Ok::<SettingsFrame, H2Error>(frame),
{
    law_flags_hold_what_was_set(frame.ack, false);
    let push = switch_value(frame.enable_push);
    let p0 = Seq::<u8>::empty();
    let p1 = p0 + entry_bytes(SettingsIdent::HeaderTableSize, frame.header_table_size);
    let p2 = p1 + entry_bytes(SettingsIdent::EnablePush, push);
    let p3 = p2 + entry_bytes(SettingsIdent::MaxConcurrentStreams, frame.max_concurrent_streams);
    let p4 = p3 + entry_bytes(SettingsIdent::InitialWindowSize, frame.initial_window_size);
    let p5 = p4 + entry_bytes(SettingsIdent::MaxFrameSize, frame.max_frame_size);
    let p6 = p5 + entry_bytes(SettingsIdent::MaxHeaderListSize, frame.max_header_list_size);
    lemma_entries_of_entry_bytes(p0, SettingsIdent::HeaderTableSize, frame.header_table_size);
    lemma_entries_of_entry_bytes(p1, SettingsIdent::EnablePush, push);
    lemma_entries_of_entry_bytes(
        p2,
        SettingsIdent::MaxConcurrentStreams,
        frame.max_concurrent_streams,
    );
    lemma_entries_of_entry_bytes(p3, SettingsIdent::InitialWindowSize, frame.initial_window_size);
    lemma_entries_of_entry_bytes(p4, SettingsIdent::MaxFrameSize, frame.max_frame_size);
    lemma_entries_of_entry_bytes(p5, SettingsIdent::MaxHeaderListSize, frame.max_header_list_size);
    assert(p6 =~= frame.payload());
    assert(settings_entries(p0) =~= Seq::empty());
    lemma_setting_pushes(settings_entries(p0), 1, frame.header_table_size);
    lemma_setting_pushes(settings_entries(p1), 2, push);
    lemma_setting_pushes(settings_entries(p2), 3, frame.max_concurrent_streams);
    lemma_setting_pushes(settings_entries(p3), 4, frame.initial_window_size);
    lemma_setting_pushes(settings_entries(p4), 5, frame.max_frame_size);
    lemma_setting_pushes(settings_entries(p5), 6, frame.max_header_list_size);
    assert(frame.ack ==> p6.len() == 0);
    let listed = SettingsFrame::listing(false, settings_entries(p6));
    assert(listed.header_table_size == frame.header_table_size);
    assert(listed.enable_push == frame.enable_push);
    assert(listed.max_concurrent_streams == frame.max_concurrent_streams);
    assert(listed.initial_window_size == frame.initial_window_size);
    assert(listed.max_frame_size == frame.max_frame_size);
    assert(listed.max_header_list_size == frame.max_header_list_size);
}

/// Adding a setting behind acceptable ones with smaller numbers keeps the list acceptable.
proof fn lemma_setting_pushes(entries: Seq<SettingsEntry>, number: u16, value: Option<u32>)
    requires
        entries_ok(entries),
        forall|i: int| 0 <= i < entries.len() ==> (#[trigger] entries[i]).0 < number,
        value matches Some(value) ==> entry_ok((number, value)),
    ensures
        entries_ok(with_entry(entries, number, value)),
        forall|i: int|
            0 <= i < with_entry(entries, number, value).len() ==> (#[trigger] with_entry(
                entries,
                number,
                value,
            )[i]).0 < number + 1,
        setting(entries, number) is None,
        forall|ident: u16| #[trigger]
            setting(with_entry(entries, number, value), ident) == if ident == number {
                value
            } else {
                setting(entries, ident)
            },
{
    lemma_setting_listed(entries, number);
    if let Some(value) = value {
        lemma_setting_push(entries, (number, value));
    }
}

/// Measures the round trip time or keeps a connection alive.
#[derive(Debug, Clone, Copy)]
pub struct PingFrame {
    pub ack: bool,
    pub data: u64,
}

impl PingFrame {
    /// How `frame` reads as a ping.
    pub open spec fn decoded(frame: FrameView) -> H2Result<PingFrame> {
        if frame.frame_type != FrameType::Ping {
            wrong_type()
        } else {
            Ok(
                PingFrame {
                    ack: frame.flags.has(Flags::ACK),
                    data: crate::bytes::be_u64(frame.payload),
                },
            )
        }
    }

    /// The frame which carries the ping.
    pub open spec fn encoded(self) -> FrameView {
        FrameView {
            frame_type: FrameType::Ping,
            flags: Flags { bits: flag_if(self.ack, Flags::ACK) },
            stream: 0,
            payload: crate::bytes::u64_bytes(self.data),
        }
    }

    /// Reads `frame` as a ping.
    pub fn try_from(frame: Frame) -> (ret: H2Result<Self>)
        requires
            frame@.frame_type == FrameType::Ping ==> frame@.payload.len() == 8,
        ensures
            ret == PingFrame::decoded(frame@),
    {
        if frame.header.frame_type != FrameType::Ping {
            return Err(H2Error::Connection(ErrorCode::InternalError));
        }
        let ack = frame.header.flags.contains(Flags::ACK);
        let data: u64 = read_u64(frame.payload.as_slice());

        Ok(PingFrame { ack, data })
    }
}

impl From<PingFrame> for Frame {
    fn from(frame: PingFrame) -> (ret: Self)
        ensures
            ret@ == frame.encoded(),
    {
        let mut flags = Flags::empty();
        proof {
            law_flags_hold_what_was_set(frame.ack, false);
        }
        if frame.ack {
            flags = flags.union(Flags::ACK);
        }
        let mut payload: Vec<u8> = Vec::with_capacity(8);
        push_u64(&mut payload, frame.data);
        proof {
            assert(payload@ =~= frame.encoded().payload);
        }

        Frame { header: FrameHeader { frame_type: FrameType::Ping, flags, stream: 0 }, payload }
    }
}

impl vstd::std_specs::convert::FromSpecImpl<PingFrame> for Frame {
    open spec fn obeys_from_spec() -> bool {
        false
    }

    open spec fn from_spec(_frame: PingFrame) -> Self {
        arbitrary()
    }
}

/// A ping is read back as it was built.
pub proof fn law_ping_frame_round_trip(frame: PingFrame)
    ensures
        frame.encoded().payload.len() == 8,
        PingFrame::decoded(frame.encoded()) == Ok::<PingFrame, H2Error>(frame),
{
    law_flags_hold_what_was_set(frame.ack, false);
    crate::bytes::law_u64_round_trip(frame.data, Seq::empty());
}

/// Announces the end of the connection.
#[derive(Debug, Clone)]
pub struct GoAwayFrame {
    pub last_stream_id: u32,
    pub error_code: Option<ErrorCode>,
    pub debug_data: Vec<u8>,
}

/// What a [`GoAwayFrame`] holds.
#[verifier::ext_equal]
pub struct GoAwayFrameView {
    pub last_stream_id: u32,
    pub error_code: Option<ErrorCode>,
    pub debug_data: Seq<u8>,
}

impl View for GoAwayFrame {
    type V = GoAwayFrameView;

    open spec fn view(&self) -> GoAwayFrameView {
        GoAwayFrameView {
            last_stream_id: self.last_stream_id,
            error_code: self.error_code,
            debug_data: self.debug_data@,
        }
    }
}

impl GoAwayFrameView {
    /// Whether `ret` is how `frame` reads as a goaway.
    pub open spec fn decodes(frame: FrameView, ret: H2Result<GoAwayFrameView>) -> bool {
        if frame.frame_type != FrameType::GoAway {
            ret == wrong_type::<GoAwayFrameView>()
        } else {
            &&& ret matches Ok(away)
            &&& away.last_stream_id == without_top_bit(crate::bytes::be_u32(frame.payload))
            &&& ErrorCode::numbered(away.error_code, crate::bytes::be_u32(frame.payload.skip(4)))
            &&& away.debug_data == frame.payload.skip(8)
        }
    }

    /// The frame which carries the goaway.
    pub open spec fn encoded(self) -> FrameView {
        FrameView {
            frame_type: FrameType::GoAway,
            flags: Flags { bits: 0 },
            stream: 0,
            payload: crate::bytes::u32_bytes(self.last_stream_id) + crate::bytes::u32_bytes(
                sent_code(self.error_code),
            ) + self.debug_data,
        }
    }
}

impl GoAwayFrame {
    /// Reads `frame` as a goaway.
    pub fn try_from(frame: Frame) -> (ret: H2Result<Self>)
        requires
            frame@.frame_type == FrameType::GoAway ==> frame@.payload.len() >= 8,
        ensures
            GoAwayFrameView::decodes(frame@, result_view(ret)),
    {
        if frame.header.frame_type != FrameType::GoAway {
            return Err(H2Error::Connection(ErrorCode::InternalError));
        }
        let Frame { header: _, mut payload } = frame;
        let last_stream_id: u32 = read_u32(payload.as_slice());
        let last_stream_id: u32 = if last_stream_id >= STREAM_ID_LIMIT {
            last_stream_id - STREAM_ID_LIMIT
        } else {
            last_stream_id
        };
        let code: &[u8] = vstd::slice::slice_subrange(payload.as_slice(), 4, payload.len());
        let error_code = ErrorCode::from_u32(read_u32(code));
        proof {
            assert(code@ =~= frame@.payload.skip(4));
        }
        let debug_data: Vec<u8> = payload.split_off(8);
        proof {
            assert(debug_data@ =~= frame@.payload.skip(8));
        }

        Ok(GoAwayFrame { last_stream_id, error_code, debug_data })
    }
}

impl From<GoAwayFrame> for Frame {
    fn from(frame: GoAwayFrame) -> (ret: Self)
        ensures
            ret@ == frame@.encoded(),
    {
        let error_code: u32 = match frame.error_code {
            Some(code) => code.as_u32(),
            None => ErrorCode::InternalError.as_u32(),
        };
        let mut payload: Vec<u8> = Vec::new();
        push_u32(&mut payload, frame.last_stream_id);
        push_u32(&mut payload, error_code);
        payload.extend_from_slice(frame.debug_data.as_slice());
        proof {
            assert(payload@ =~= frame@.encoded().payload);
        }

        Frame {
            header: FrameHeader {
                frame_type: FrameType::GoAway,
                flags: Flags::empty(),
                stream: 0,
            },
            payload,
        }
    }
}

impl vstd::std_specs::convert::FromSpecImpl<GoAwayFrame> for Frame {
    open spec fn obeys_from_spec() -> bool {
        false
    }

    open spec fn from_spec(_frame: GoAwayFrame) -> Self {
        arbitrary()
    }
}

/// A goaway with an error code is read back as it was built.
pub proof fn law_go_away_frame_round_trip(frame: GoAwayFrameView, ret: H2Result<GoAwayFrameView>)
    requires
        frame.last_stream_id < STREAM_ID_LIMIT,
        frame.error_code is Some,
        GoAwayFrameView::decodes(frame.encoded(), ret),
    ensures
        frame.encoded().payload.len() >= 8,
        ret == Ok::<GoAwayFrameView, H2Error>(frame),
{
    let n = sent_code(frame.error_code);
    let payload = frame.encoded().payload;
    let code = crate::bytes::u32_bytes(n);
    crate::bytes::law_u32_round_trip(frame.last_stream_id, code + frame.debug_data);
    crate::bytes::law_u32_round_trip(n, frame.debug_data);
    assert(payload =~= crate::bytes::u32_bytes(frame.last_stream_id) + (code + frame.debug_data));
    assert(payload.skip(4) =~= code + frame.debug_data);
    assert(payload.skip(8) =~= frame.debug_data);
    super::error::law_error_code_numbers_unique(ret->Ok_0.error_code, frame.error_code, n);
}

/// Grants the other side more of a flow control window.
#[derive(Debug, Clone, Copy)]
pub struct WindowUpdateFrame {
    pub stream: u32,
    pub window_size_increment: u32,
}

impl WindowUpdateFrame {
    /// How `frame` reads as a window update.
    pub open spec fn decoded(frame: FrameView) -> H2Result<WindowUpdateFrame> {
        if frame.frame_type != FrameType::WindowUpdate {
            wrong_type()
        } else {
            Ok(
                WindowUpdateFrame {
                    stream: frame.stream,
                    window_size_increment: without_top_bit(crate::bytes::be_u32(frame.payload)),
                },
            )
        }
    }

    /// The frame which carries the update.
    pub open spec fn encoded(self) -> FrameView {
        FrameView {
            frame_type: FrameType::WindowUpdate,
            flags: Flags { bits: 0 },
            stream: self.stream,
            payload: crate::bytes::u32_bytes(self.window_size_increment),
        }
    }

    /// Reads `frame` as a window update.
    pub fn try_from(frame: Frame) -> (ret: H2Result<Self>)
        requires
            frame@.frame_type == FrameType::WindowUpdate ==> frame@.payload.len() >= 4,
        ensures
            ret == WindowUpdateFrame::decoded(frame@),
    {
        if frame.header.frame_type != FrameType::WindowUpdate {
            return Err(H2Error::Connection(ErrorCode::InternalError));
        }
        let increment: u32 = read_u32(frame.payload.as_slice());
        let window_size_increment: u32 = if increment >= STREAM_ID_LIMIT {
            increment - STREAM_ID_LIMIT
        } else {
            increment
        };

        Ok(WindowUpdateFrame { stream: frame.header.stream, window_size_increment })
    }
}

impl From<WindowUpdateFrame> for Frame {
    fn from(frame: WindowUpdateFrame) -> (ret: Self)
        ensures
            ret@ == frame.encoded(),
    {
        let mut payload: Vec<u8> = Vec::with_capacity(4);
        push_u32(&mut payload, frame.window_size_increment);
        proof {
            assert(payload@ =~= frame.encoded().payload);
        }

        Frame {
            header: FrameHeader {
                frame_type: FrameType::WindowUpdate,
                flags: Flags::empty(),
                stream: frame.stream,
            },
            payload,
        }
    }
}

impl vstd::std_specs::convert::FromSpecImpl<WindowUpdateFrame> for Frame {
    open spec fn obeys_from_spec() -> bool {
        false
    }

    open spec fn from_spec(_frame: WindowUpdateFrame) -> Self {
        arbitrary()
    }
}

/// A window update is read back as it was built.
pub proof fn law_window_update_frame_round_trip(frame: WindowUpdateFrame)
    requires
        frame.window_size_increment < STREAM_ID_LIMIT,
    ensures
        frame.encoded().payload.len() == 4,
        WindowUpdateFrame::decoded(frame.encoded()) == Ok::<WindowUpdateFrame, H2Error>(frame),
{
    crate::bytes::law_u32_round_trip(frame.window_size_increment, Seq::empty());
}

/// Continues a header block.
#[derive(Debug, Clone)]
pub struct ContinuationFrame {
    pub stream: u32,
    pub end_headers: bool,
    pub data: Vec<u8>,
}

/// What a [`ContinuationFrame`] holds.
#[verifier::ext_equal]
pub struct ContinuationFrameView {
    pub stream: u32,
    pub end_headers: bool,
    pub data: Seq<u8>,
}

impl View for ContinuationFrame {
    type V = ContinuationFrameView;

    open spec fn view(&self) -> ContinuationFrameView {
        ContinuationFrameView {
            stream: self.stream,
            end_headers: self.end_headers,
            data: self.data@,
        }
    }
}

impl ContinuationFrameView {
    /// How `frame` reads as a continuation.
    pub open spec fn decoded(frame: FrameView) -> H2Result<ContinuationFrameView> {
        if frame.frame_type != FrameType::Continuation {
            wrong_type()
        } else {
            Ok(
                ContinuationFrameView {
                    stream: frame.stream,
                    end_headers: frame.flags.has(Flags::END_HEADERS),
                    data: frame.payload,
                },
            )
        }
    }

    /// The frame which carries the continuation.
    pub open spec fn encoded(self) -> FrameView {
        FrameView {
            frame_type: FrameType::Continuation,
            flags: Flags { bits: flag_if(self.end_headers, Flags::END_HEADERS) },
            stream: self.stream,
            payload: self.data,
        }
    }
}

impl TryFrom<Frame> for ContinuationFrame {
    type Error = H2Error;

    fn try_from(frame: Frame) -> (ret: H2Result<Self>)
        ensures
            result_view(ret) == ContinuationFrameView::decoded(frame@),
    {
        if frame.header.frame_type != FrameType::Continuation {
            return Err(H2Error::Connection(ErrorCode::InternalError));
        }
        let end_headers = frame.header.flags.contains(Flags::END_HEADERS);

        Ok(ContinuationFrame { stream: frame.header.stream, end_headers, data: frame.payload })
    }
}

impl vstd::std_specs::convert::TryFromSpecImpl<Frame> for ContinuationFrame {
    open spec fn obeys_try_from_spec() -> bool {
        false
    }

    open spec fn try_from_spec(_frame: Frame) -> H2Result<Self> {
        arbitrary()
    }
}

impl From<ContinuationFrame> for Frame {
    fn from(frame: ContinuationFrame) -> (ret: Self)
        ensures
            ret@ == frame@.encoded(),
    {
        let mut flags = Flags::empty();
        proof {
            law_flags_hold_what_was_set(false, frame.end_headers);
        }
        if frame.end_headers {
            flags = flags.union(Flags::END_HEADERS);
        }

        Frame {
            header: FrameHeader {
                frame_type: FrameType::Continuation,
                flags,
                stream: frame.stream,
            },
            payload: frame.data,
        }
    }
}

impl vstd::std_specs::convert::FromSpecImpl<ContinuationFrame> for Frame {
    open spec fn obeys_from_spec() -> bool {
        false
    }

    open spec fn from_spec(_frame: ContinuationFrame) -> Self {
        arbitrary()
    }
}

/// A continuation is read back as it was built.
pub proof fn law_continuation_frame_round_trip(frame: ContinuationFrameView)
    ensures
        ContinuationFrameView::decoded(frame.encoded()) == Ok::<ContinuationFrameView, H2Error>(
            frame,
        ),
{
    law_flags_hold_what_was_set(false, frame.end_headers);
}

/// Any frame, with its payload free of padding.
#[derive(Debug, Clone)]
pub struct Frame {
    pub header: FrameHeader,
    pub payload: Vec<u8>,
}

impl View for Frame {
    type V = FrameView;

    open spec fn view(&self) -> FrameView {
        FrameView {
            frame_type: self.header.frame_type,
            flags: self.header.flags,
            stream: self.header.stream,
            payload: self.payload@,
        }
    }
}

impl FrameView {
    /// The frame behind a raw header and the payload which followed it.
    pub open spec fn assembled(raw: FrameHeaderRaw, payload: Seq<u8>) -> H2Result<FrameView> {
        match FrameHeader::checked(raw) {
            Err(err) => Err(err),
            Ok(header) => {
                let padded = (header.frame_type == FrameType::Data || header.frame_type
                    == FrameType::Headers) && header.flags.has(Flags::PADDED);
                if !padded {
                    Ok(header.carrying(payload))
                } else if payload.len() == 0 {
                    Err(H2Error::Connection(ErrorCode::InternalError))
                } else if payload[0] >= payload.len() {
                    Err(H2Error::Connection(ErrorCode::ProtocolError))
                } else {
                    Ok(header.carrying(payload.subrange(1, payload.len() - payload[0])))
                }
            },
        }
    }

    /// The bytes of the frame: its header and its payload. The length is stored in three bytes.
    pub open spec fn bytes(self) -> Seq<u8> {
        FrameHeaderRaw {
            length: (self.payload.len() % 0x100_0000) as u32,
            frame_type: self.frame_type.number(),
            flags: self.flags.bits,
            stream: self.stream,
        }.encoded() + self.payload
    }
}

impl Frame {
    /// Writes the header and the payload of the frame.
    pub fn to_bytes(&self) -> (bytes: Vec<u8>)
        ensures
            bytes@ == self@.bytes(),
    {
        let mut bytes: Vec<u8> = Vec::new();
        push_u24(&mut bytes, (self.payload.len() % 0x100_0000) as u32);
        bytes.push(self.header.frame_type.as_u8());
        bytes.push(self.header.flags.bits());
        push_u32(&mut bytes, self.header.stream);
        bytes.extend_from_slice(self.payload.as_slice());
        proof {
            assert(bytes@ =~= self@.bytes());
        }

        bytes
    }

    /// Checks a raw header and removes the padding from the payload which followed it.
    pub fn from_header_and_payload(header: FrameHeaderRaw, payload: &[u8]) -> (ret: H2Result<Self>)
        ensures
            result_view(ret) == FrameView::assembled(header, payload@),
    {
        let ghost expected = FrameView::assembled(header, payload@);
        let header: FrameHeader = match FrameHeader::try_from(header) {
            Ok(header) => header,
            Err(err) => return Err(err),
        };
        let mut begin: usize = 0;
        let mut end: usize = payload.len();
        match header.frame_type {
            FrameType::Data | FrameType::Headers => {
                if header.flags.contains(Flags::PADDED) {
                    begin = 1;
                    if payload.len() == 0 {
                        return Err(H2Error::Connection(ErrorCode::InternalError));
                    }
                    let padding: usize = payload[0] as usize;
                    if padding >= payload.len() {
                        return Err(H2Error::Connection(ErrorCode::ProtocolError));
                    }
                    end = end - padding;
                }
            },
            FrameType::PushPromise => return Err(H2Error::Connection(ErrorCode::ProtocolError)),
            _ => {},
        }
        let payload: Vec<u8> = vstd::slice::slice_to_vec(
            vstd::slice::slice_subrange(payload, begin, end),
        );
        proof {
            assert(payload@ =~= expected->Ok_0.payload);
        }

        Ok(Frame { header, payload })
    }
}

/// The part of a frame which is not its payload.
#[derive(Debug, Clone, Copy)]
pub struct FrameHeader {
    pub frame_type: FrameType,
    pub flags: Flags,
    pub stream: u32,
}

impl FrameHeader {
    /// The frame with this header and the given payload.
    pub open spec fn carrying(self, payload: Seq<u8>) -> FrameView {
        FrameView {
            frame_type: self.frame_type,
            flags: self.flags,
            stream: self.stream,
            payload,
        }
    }

    /// The least number of payload bytes which the flags ask for.
    pub open spec fn least_length(frame_type: FrameType, flags: Flags) -> int {
        let padding: int = if flags.has(Flags::PADDED) {
            1
        } else {
            0
        };
        let priority: int = if frame_type == FrameType::Headers && flags.has(Flags::PRIORITY) {
            5
        } else {
            0
        };
        padding + priority
    }

    /// What is wrong with a header, as far as its payload is not needed to tell.
    pub open spec fn fault(raw: FrameHeaderRaw) -> Option<H2Error> {
        let flags = Flags { bits: raw.flags & Flags::ALL };
        match FrameType::numbered(raw.frame_type) {
            None => Some(H2Error::Connection(ErrorCode::InternalError)),
            Some(FrameType::PushPromise) => Some(H2Error::Connection(ErrorCode::ProtocolError)),
            Some(FrameType::WindowUpdate) => if raw.length != 4 {
                Some(H2Error::Connection(ErrorCode::FrameSizeError))
            } else {
                None
            },
            Some(frame_type) => {
                let of_stream = frame_type == FrameType::Data || frame_type == FrameType::Headers
                    || frame_type == FrameType::Priority || frame_type == FrameType::RstStream;
                if of_stream != (raw.stream != 0) {
                    Some(H2Error::Connection(ErrorCode::ProtocolError))
                } else {
                    match frame_type {
                        FrameType::Priority => if raw.length != 5 {
                            Some(H2Error::Stream(ErrorCode::FrameSizeError))
                        } else {
                            None
                        },
                        FrameType::RstStream => if raw.length != 4 {
                            Some(H2Error::Connection(ErrorCode::FrameSizeError))
                        } else {
                            None
                        },
                        FrameType::Settings => if raw.length % 6 != 0 {
                            Some(H2Error::Connection(ErrorCode::FrameSizeError))
                        } else {
                            None
                        },
                        FrameType::Ping => if raw.length != 8 {
                            Some(H2Error::Connection(ErrorCode::FrameSizeError))
                        } else {
                            None
                        },
                        FrameType::GoAway => if raw.length < 8 {
                            Some(H2Error::Connection(ErrorCode::FrameSizeError))
                        } else {
                            None
                        },
                        FrameType::Continuation => None,
                        _ => if raw.length < Self::least_length(frame_type, flags) {
                            Some(H2Error::Connection(ErrorCode::ProtocolError))
                        } else {
                            None
                        },
                    }
                }
            },
        }
    }

    /// The outcome of checking a raw header.
    pub open spec fn checked(raw: FrameHeaderRaw) -> H2Result<FrameHeader> {
        match Self::fault(raw) {
            Some(err) => Err(err),
            None => Ok(
                FrameHeader {
                    frame_type: FrameType::numbered(raw.frame_type)->Some_0,
                    flags: Flags { bits: raw.flags & Flags::ALL },
                    stream: raw.stream,
                },
            ),
        }
    }
}

impl TryFrom<FrameHeaderRaw> for FrameHeader {
    type Error = H2Error;

    fn try_from(raw: FrameHeaderRaw) -> (ret: H2Result<Self>) {
        // Unknown frames are treated as a connection error.
        let frame_type: FrameType = match FrameType::from_u8(raw.frame_type) {
            Some(frame_type) => frame_type,
            None => return Err(H2Error::Connection(ErrorCode::InternalError)),
        };
        // Unknown flags are unset.
        let flags = Flags::from_bits_truncate(raw.flags);
        let stream: u32 = raw.stream;
        // Perform all standard validity checks which do not need the payload.
        match frame_type {
            FrameType::Data | FrameType::Headers => {
                // Make sure the frame is associated with a stream.
                if stream == 0 {
                    return Err(H2Error::Connection(ErrorCode::ProtocolError));
                }
                // Make sure that if there is padding, the payload is big enough.
                let mut min: u32 = 0;
                if flags.contains(Flags::PADDED) {
                    min = min + 1;
                    if min > raw.length {
                        return Err(H2Error::Connection(ErrorCode::ProtocolError));
                    }
                }
                // A headers frame also has to hold its priority, if any.
                if let FrameType::Headers = frame_type {
                    if flags.contains(Flags::PRIORITY) {
                        min = min + 5;
                    }
                    if min > raw.length {
                        return Err(H2Error::Connection(ErrorCode::ProtocolError));
                    }
                }
            },
            FrameType::Priority => {
                if stream == 0 {
                    return Err(H2Error::Connection(ErrorCode::ProtocolError));
                }
                if raw.length != 5 {
                    return Err(H2Error::Stream(ErrorCode::FrameSizeError));
                }
            },
            FrameType::RstStream => {
                if stream == 0 {
                    return Err(H2Error::Connection(ErrorCode::ProtocolError));
                }
                if raw.length != 4 {
                    return Err(H2Error::Connection(ErrorCode::FrameSizeError));
                }
            },
            FrameType::Settings => {
                // Make sure the frame is associated with the connection.
                if stream != 0 {
                    return Err(H2Error::Connection(ErrorCode::ProtocolError));
                }
                // The payload is a list of entries of six bytes each.
                if raw.length % 6 != 0 {
                    return Err(H2Error::Connection(ErrorCode::FrameSizeError));
                }
            },
            FrameType::PushPromise => {
                // Only frames of clients are checked, but clients never send this one.
                return Err(H2Error::Connection(ErrorCode::ProtocolError));
            },
            FrameType::Ping => {
                if stream != 0 {
                    return Err(H2Error::Connection(ErrorCode::ProtocolError));
                }
                if raw.length != 8 {
                    return Err(H2Error::Connection(ErrorCode::FrameSizeError));
                }
            },
            FrameType::GoAway => {
                if stream != 0 {
                    return Err(H2Error::Connection(ErrorCode::ProtocolError));
                }
                if 8 > raw.length {
                    return Err(H2Error::Connection(ErrorCode::FrameSizeError));
                }
            },
            FrameType::WindowUpdate => {
                if raw.length != 4 {
                    return Err(H2Error::Connection(ErrorCode::FrameSizeError));
                }
            },
            FrameType::Continuation => {
                if stream != 0 {
                    return Err(H2Error::Connection(ErrorCode::ProtocolError));
                }
            },
        }

        Ok(FrameHeader { frame_type, flags, stream })
    }
}

impl vstd::std_specs::convert::TryFromSpecImpl<FrameHeaderRaw> for FrameHeader {
    open spec fn obeys_try_from_spec() -> bool {
        true
    }

    open spec fn try_from_spec(raw: FrameHeaderRaw) -> H2Result<Self> {
        FrameHeader::checked(raw)
    }
}

/// A frame header as it was received.
#[derive(Debug, Clone, Copy)]
pub struct FrameHeaderRaw {
    pub length: u32,
    pub frame_type: u8,
    pub flags: u8,
    pub stream: u32,
}

impl FrameHeaderRaw {
    /// The header stored in the first nine bytes of `s`.
    pub open spec fn decoded(s: Seq<u8>) -> FrameHeaderRaw {
        FrameHeaderRaw {
            length: crate::bytes::be_u24(s),
            frame_type: s[3],
            flags: s[4],
            stream: without_top_bit(crate::bytes::be_u32(s.skip(5))),
        }
    }

    /// The nine bytes in which the header is stored.
    pub open spec fn encoded(self) -> Seq<u8> {
        crate::bytes::u24_bytes(self.length) + seq![self.frame_type, self.flags]
            + crate::bytes::u32_bytes(self.stream)
    }

    /// Reads the frame header at the begin of `buf`.
    pub fn from_slice(buf: &[u8]) -> (ret: H2Result<Self>)
        ensures
            ret == if buf@.len() < FRAME_HEADER_LEN {
                Err::<FrameHeaderRaw, H2Error>(H2Error::Connection(ErrorCode::ProtocolError))
            } else {
                Ok::<FrameHeaderRaw, H2Error>(FrameHeaderRaw::decoded(buf@))
            },
            ret matches Ok(raw) ==> raw.length < 0x100_0000 && raw.stream < STREAM_ID_LIMIT,
    {
        if FRAME_HEADER_LEN > buf.len() {
            return Err(H2Error::Connection(ErrorCode::ProtocolError));
        }
        let length: u32 = read_u24(buf);
        let frame_type: u8 = buf[3];
        let flags: u8 = buf[4];
        let rest: &[u8] = vstd::slice::slice_subrange(buf, 5, buf.len());
        let stream: u32 = read_u32(rest);
        proof {
            assert(rest@ =~= buf@.skip(5));
        }
        // The most significant bit has to be ignored.
        let stream: u32 = if stream >= STREAM_ID_LIMIT {
            stream - STREAM_ID_LIMIT
        } else {
            stream
        };

        Ok(FrameHeaderRaw { length, frame_type, flags, stream })
    }
}

/// Whether the payload of a frame has a length which its type allows. Padding is already removed.
pub open spec fn is_sized(frame: FrameView) -> bool {
    match frame.frame_type {
        FrameType::Priority => frame.payload.len() == 5,
        FrameType::RstStream => frame.payload.len() == 4,
        FrameType::Settings => frame.payload.len() % 6 == 0,
        FrameType::Ping => frame.payload.len() == 8,
        FrameType::GoAway => frame.payload.len() >= 8,
        FrameType::WindowUpdate => frame.payload.len() == 4,
        _ => true,
    }
}

/// A frame whose payload has the announced length has a payload which its type allows.
pub proof fn law_assembled_frame_is_sized(raw: FrameHeaderRaw, payload: Seq<u8>)
    requires
        payload.len() == raw.length,
    ensures
        FrameView::assembled(raw, payload) matches Ok(frame) ==> is_sized(frame) && frame.stream
            == raw.stream && frame.frame_type != FrameType::PushPromise,
{
}

/// The header of a frame is read back as it was written.
pub proof fn law_frame_header_round_trip(raw: FrameHeaderRaw, tail: Seq<u8>)
    requires
        raw.length < 0x100_0000,
        raw.stream < STREAM_ID_LIMIT,
    ensures
        raw.encoded().len() == FRAME_HEADER_LEN,
        FrameHeaderRaw::decoded(raw.encoded() + tail) == raw,
{
    let s = raw.encoded() + tail;
    let rest = seq![raw.frame_type, raw.flags] + crate::bytes::u32_bytes(raw.stream) + tail;
    assert(s =~= crate::bytes::u24_bytes(raw.length) + rest);
    crate::bytes::law_u24_round_trip(raw.length, rest);
    assert(s.skip(5) =~= crate::bytes::u32_bytes(raw.stream) + tail);
    crate::bytes::law_u32_round_trip(raw.stream, tail);
    assert(s[3] == rest[0] && s[4] == rest[1]);
}

/// A header without a fault and without padding is put together with its payload.
proof fn lemma_assembled(raw: FrameHeaderRaw, payload: Seq<u8>)
    requires
        FrameHeader::fault(raw) is None,
        raw.flags & Flags::ALL == raw.flags,
        !(Flags { bits: raw.flags }).has(Flags::PADDED),
    ensures
        FrameView::assembled(raw, payload) == Ok::<FrameView, H2Error>(
            FrameView {
                frame_type: FrameType::numbered(raw.frame_type)->Some_0,
                flags: Flags { bits: raw.flags },
                stream: raw.stream,
                payload,
            },
        ),
{
}

/// The header and the payload of a written frame are where they belong.
proof fn lemma_frame_bytes(frame: FrameView, raw: FrameHeaderRaw, tail: Seq<u8>)
    requires
        frame.payload.len() < 0x100_0000,
        frame.stream < STREAM_ID_LIMIT,
        raw == (FrameHeaderRaw {
            length: frame.payload.len() as u32,
            frame_type: frame.frame_type.number(),
            flags: frame.flags.bits,
            stream: frame.stream,
        }),
    ensures
        FrameHeaderRaw::decoded(frame.bytes() + tail) == raw,
        (frame.bytes() + tail).subrange(9, 9 + raw.length) == frame.payload,
{
    let s = frame.bytes() + tail;
    assert(s =~= raw.encoded() + (frame.payload + tail));
    law_frame_header_round_trip(raw, frame.payload + tail);
    assert(s.subrange(9, 9 + raw.length) =~= frame.payload);
}

/// A frame which was written is read back: its header is found, its payload has the announced
/// length, and the frame which is put together out of them is the one that was written. This holds
/// for frames which a client may send, with known flags and without padding.
pub proof fn law_frame_round_trip(frame: FrameView, tail: Seq<u8>)
    requires
        frame.payload.len() < 0x100_0000,
        frame.stream < STREAM_ID_LIMIT,
        frame.flags.bits & Flags::ALL == frame.flags.bits,
        !frame.flags.has(Flags::PADDED),
        FrameHeader::fault(
            FrameHeaderRaw {
                length: frame.payload.len() as u32,
                frame_type: frame.frame_type.number(),
                flags: frame.flags.bits,
                stream: frame.stream,
            },
        ) is None,
    ensures
        ({
            let s = frame.bytes() + tail;
            let raw = FrameHeaderRaw::decoded(s);
            &&& raw.length == frame.payload.len()
            &&& s.subrange(9, 9 + raw.length) == frame.payload
            &&& FrameView::assembled(raw, s.subrange(9, 9 + raw.length)) == Ok::<
                FrameView,
                H2Error,
            >(frame)
        }),
{
    let raw = FrameHeaderRaw {
        length: frame.payload.len() as u32,
        frame_type: frame.frame_type.number(),
        flags: frame.flags.bits,
        stream: frame.stream,
    };
    lemma_frame_bytes(frame, raw, tail);
    lemma_assembled(raw, frame.payload);
    assert(FrameType::numbered(raw.frame_type) == Some(frame.frame_type));
}

/// Which headers are accepted: frames of a stream name one, frames of the connection do not, and the
/// payload has the length which its type asks for, or room for its padding and its priority. A type
/// which is unknown, or which a client may not send, is refused.
pub proof fn law_which_headers_are_accepted(raw: FrameHeaderRaw)
    ensures
        ({
            let ok = FrameHeader::fault(raw) is None;
            let flags = Flags { bits: raw.flags & Flags::ALL };
            let pad: int = if flags.has(Flags::PADDED) {
                1
            } else {
                0
            };
            let priority: int = if flags.has(Flags::PRIORITY) {
                5
            } else {
                0
            };
            &&& raw.frame_type == 0 ==> (ok <==> raw.stream != 0 && raw.length >= pad)
            &&& raw.frame_type == 1 ==> (ok <==> raw.stream != 0 && raw.length >= pad + priority)
            &&& raw.frame_type == 2 ==> (ok <==> raw.stream != 0 && raw.length == 5)
            &&& raw.frame_type == 3 ==> (ok <==> raw.stream != 0 && raw.length == 4)
            &&& raw.frame_type == 4 ==> (ok <==> raw.stream == 0 && raw.length % 6 == 0)
            &&& raw.frame_type == 5 ==> !ok
            &&& raw.frame_type == 6 ==> (ok <==> raw.stream == 0 && raw.length == 8)
            &&& raw.frame_type == 7 ==> (ok <==> raw.stream == 0 && raw.length >= 8)
            &&& raw.frame_type == 8 ==> (ok <==> raw.length == 4)
            &&& raw.frame_type == 9 ==> (ok <==> raw.stream == 0)
            &&& raw.frame_type > 9 ==> !ok
            &&& raw.frame_type == 2 && raw.stream != 0 && raw.length != 5 ==> FrameHeader::fault(raw)
                == Some(H2Error::Stream(ErrorCode::FrameSizeError))
            &&& FrameHeader::fault(raw) matches Some(err) ==> (err is Stream ==> raw.frame_type
                == 2)
        }),
{
}

/// Padding is removed: behind the length of the padding and in front of the padding itself, the data
/// is left as it is. Padding which does not fit in the payload is refused.
pub proof fn law_padding_is_removed(
    raw: FrameHeaderRaw,
    length: u8,
    data: Seq<u8>,
    padding: Seq<u8>,
)
    requires
        raw.frame_type == 0 || raw.frame_type == 1,
        FrameHeader::fault(raw) is None,
        (Flags { bits: raw.flags & Flags::ALL }).has(Flags::PADDED),
    ensures
        padding.len() == length ==> FrameView::assembled(raw, seq![length] + data + padding) == Ok::<
            FrameView,
            H2Error,
        >(
            FrameView {
                frame_type: if raw.frame_type == 0 {
                    FrameType::Data
                } else {
                    FrameType::Headers
                },
                flags: Flags { bits: raw.flags & Flags::ALL },
                stream: raw.stream,
                payload: data,
            },
        ),
        length > padding.len() && data.len() == 0 ==> FrameView::assembled(
            raw,
            seq![length] + padding,
        ) == Err::<FrameView, H2Error>(H2Error::Connection(ErrorCode::ProtocolError)),
{
    let payload = seq![length] + data + padding;
    assert(payload[0] == length);
    if padding.len() == length {
        assert(payload.subrange(1, payload.len() - length) =~= data);
    }
    assert((seq![length] + padding)[0] == length);
}

/// The priority in front of a header block is split off, and the block is left as it is.
pub proof fn law_priority_is_split_off(
    stream: u32,
    flags: Flags,
    priority: Priority,
    block: Seq<u8>,
)
    requires
        stream != 0,
        flags.has(Flags::PRIORITY),
        !flags.has(Flags::PADDED),
        priority.stream_dependency < STREAM_ID_LIMIT,
    ensures
        ({
            let frame = FrameView {
                frame_type: FrameType::Headers,
                flags,
                stream,
                payload: priority.encoded() + block,
            };
            &&& HeadersFrameView::has_room(frame)
            &&& HeadersFrameView::decoded(frame) matches Ok(headers) && {
                &&& headers.stream == stream
                &&& headers.priority == Some(priority)
                &&& headers.data == block
                &&& headers.end_stream == flags.has(Flags::END_STREAM)
                &&& headers.end_headers == flags.has(Flags::END_HEADERS)
            }
        }),
{
    let payload = priority.encoded() + block;
    assert(priority.encoded().len() == 5);
    assert(payload.subrange(0, 5) =~= priority.encoded() + Seq::<u8>::empty());
    assert(payload.skip(5) =~= block);
    law_priority_round_trip(priority, Seq::empty());
}

/// A value of a setting which comes only once is the one which is found.
proof fn lemma_only_setting(entries: Seq<SettingsEntry>, i: int)
    requires
        0 <= i < entries.len(),
        forall|i: int, j: int|
            0 <= i < j < entries.len() ==> (#[trigger] entries[i]).0 != (#[trigger] entries[j]).0,
    ensures
        setting(entries, entries[i].0) == Some(entries[i].1),
    decreases entries.len(),
{
    if i < entries.len() - 1 {
        let front = entries.drop_last();
        assert(entries[i].0 != entries[entries.len() - 1].0);
        assert forall|j: int, k: int| 0 <= j < k < front.len() implies (#[trigger] front[j]).0 != (
        #[trigger] front[k]).0 by {
            assert(entries[j].0 != entries[k].0);
        }
        lemma_only_setting(front, i);
    }
}

/// A list of settings is accepted exactly if it holds the settings 1 to 6, each at most once, and
/// the switch 2 is 0 or 1. Then each entry gives its own setting the value which it holds, and what
/// is not listed has no value.
#[verifier::spinoff_prover]
#[verifier::rlimit(30)]
pub proof fn law_settings_are_read(frame: FrameView, i: int)
    requires
        frame.frame_type == FrameType::Settings,
        !frame.flags.has(Flags::ACK),
    ensures
        ({
            let entries = settings_entries(frame.payload);
            let ret = SettingsFrame::decoded(frame);
            &&& ret is Ok <==> {
                &&& forall|j: int|
                    0 <= j < entries.len() ==> 1 <= (#[trigger] entries[j]).0 <= 6 && (entries[j].0
                        == 2 ==> entries[j].1 <= 1)
                &&& forall|j: int, k: int|
                    0 <= j < k < entries.len() ==> (#[trigger] entries[j]).0 != (
                    #[trigger] entries[k]).0
            }
            &&& ret matches Err(err) ==> err == H2Error::Connection(ErrorCode::ProtocolError)
            &&& ret matches Ok(settings) ==> {
                &&& !settings.ack
                &&& 0 <= i < entries.len() ==> {
                    let (number, value) = entries[i];
                    &&& number == 1 ==> settings.header_table_size == Some(value)
                    &&& number == 2 ==> settings.enable_push == Some(value == 1)
                    &&& number == 3 ==> settings.max_concurrent_streams == Some(value)
                    &&& number == 4 ==> settings.initial_window_size == Some(value)
                    &&& number == 5 ==> settings.max_frame_size == Some(value)
                    &&& number == 6 ==> settings.max_header_list_size == Some(value)
                }
                &&& settings.header_table_size is Some <==> exists|j: int|
                    0 <= j < entries.len() && (#[trigger] entries[j]).0 == 1
                &&& settings.enable_push is Some <==> exists|j: int|
                    0 <= j < entries.len() && (#[trigger] entries[j]).0 == 2
                &&& settings.max_concurrent_streams is Some <==> exists|j: int|
                    0 <= j < entries.len() && (#[trigger] entries[j]).0 == 3
                &&& settings.initial_window_size is Some <==> exists|j: int|
                    0 <= j < entries.len() && (#[trigger] entries[j]).0 == 4
                &&& settings.max_frame_size is Some <==> exists|j: int|
                    0 <= j < entries.len() && (#[trigger] entries[j]).0 == 5
                &&& settings.max_header_list_size is Some <==> exists|j: int|
                    0 <= j < entries.len() && (#[trigger] entries[j]).0 == 6
            }
        }),
{
    let entries = settings_entries(frame.payload);
    if entries_ok(entries) {
        assert forall|j: int| 0 <= j < entries.len() implies 1 <= (#[trigger] entries[j]).0 <= 6 && (
        entries[j].0 == 2 ==> entries[j].1 <= 1) by {
            assert(entry_ok(entries[j]));
        }
        if 0 <= i < entries.len() {
            lemma_only_setting(entries, i);
        }
        lemma_setting_listed(entries, 1);
        lemma_setting_listed(entries, 2);
        lemma_setting_listed(entries, 3);
        lemma_setting_listed(entries, 4);
        lemma_setting_listed(entries, 5);
        lemma_setting_listed(entries, 6);
    } else if forall|j: int| 0 <= j < entries.len() ==> 1 <= (#[trigger] entries[j]).0 <= 6 && (
    entries[j].0 == 2 ==> entries[j].1 <= 1) {
        assert forall|j: int| 0 <= j < entries.len() implies entry_ok(#[trigger] entries[j]) by {
            assert(1 <= entries[j].0 <= 6);
        }
    }
}

/// In a headers frame which announces both padding and a priority, the priority is read behind the
/// first eight bytes of what is left of the payload, and the header block behind the priority.
pub proof fn law_padded_priority_is_read(frame: FrameView)
    requires
        frame.frame_type == FrameType::Headers,
        frame.stream != 0,
        frame.flags.has(Flags::PADDED),
        frame.flags.has(Flags::PRIORITY),
    ensures
        HeadersFrameView::has_room(frame) <==> frame.payload.len() >= 13,
        frame.payload.len() >= 13 ==> (HeadersFrameView::decoded(frame) matches Ok(headers)
            && headers.priority == Some(Priority::decoded(frame.payload.subrange(8, 13)))
            && frame.payload.take(13) + headers.data == frame.payload),
{
    if frame.payload.len() >= 13 {
        assert(frame.payload.take(13) + frame.payload.skip(13) =~= frame.payload);
    }
}

/// What a refused header is answered with: a frame on the wrong kind of stream and one which has no
/// room for its padding or its priority are protocol errors, a length which its type does not allow is
/// an error about the size, and an unknown type is an internal error.
pub proof fn law_why_headers_are_refused(raw: FrameHeaderRaw)
    ensures
        ({
            let fault = FrameHeader::fault(raw);
            let protocol = Some(H2Error::Connection(ErrorCode::ProtocolError));
            let size = Some(H2Error::Connection(ErrorCode::FrameSizeError));
            let of_stream = raw.frame_type < 4;
            let of_connection = raw.frame_type == 4 || raw.frame_type == 6 || raw.frame_type == 7
                || raw.frame_type == 9;
            &&& of_stream && raw.stream == 0 ==> fault == protocol
            &&& of_connection && raw.stream != 0 ==> fault == protocol
            &&& raw.frame_type <= 1 && raw.stream != 0 ==> fault is None || fault == protocol
            &&& raw.frame_type == 3 && raw.stream != 0 && raw.length != 4 ==> fault == size
            &&& raw.frame_type == 4 && raw.stream == 0 && raw.length % 6 != 0 ==> fault == size
            &&& raw.frame_type == 5 ==> fault == protocol
            &&& raw.frame_type == 6 && raw.stream == 0 && raw.length != 8 ==> fault == size
            &&& raw.frame_type == 7 && raw.stream == 0 && raw.length < 8 ==> fault == size
            &&& raw.frame_type == 8 && raw.length != 4 ==> fault == size
            &&& raw.frame_type > 9 ==> fault == Some(H2Error::Connection(ErrorCode::InternalError))
        }),
{
}

} // verus!
