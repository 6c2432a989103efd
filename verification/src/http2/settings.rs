//! The settings which both peers announce to each other.

use vstd::prelude::*;

use super::error::{ErrorCode, H2Error, H2Result};
use super::frame::SettingsFrame;

verus! {

/// The smallest frame size limit a peer may announce.
pub const MAX_FRAME_SIZE_MIN: u32 = 16_384;

/// The biggest frame size limit a peer may announce.
pub const MAX_FRAME_SIZE_MAX: u32 = 16_777_215;

/// The biggest flow control window.
pub const WINDOW_SIZE_MAX: u32 = 0x7fff_ffff;

/// The identifiers of the settings on the wire.
#[derive(Debug, Clone, Copy, PartialEq, Eq, Structural)]
pub enum SettingsIdent {
    HeaderTableSize,
    EnablePush,
    MaxConcurrentStreams,
    InitialWindowSize,
    MaxFrameSize,
    MaxHeaderListSize,
}

impl SettingsIdent {
    /// The number by which the setting is known on the wire.
    pub open spec fn number(self) -> u16 {
        match self {
            SettingsIdent::HeaderTableSize => 1,
            SettingsIdent::EnablePush => 2,
            SettingsIdent::MaxConcurrentStreams => 3,
            SettingsIdent::InitialWindowSize => 4,
            SettingsIdent::MaxFrameSize => 5,
            SettingsIdent::MaxHeaderListSize => 6,
        }
    }

    /// The setting with the number `n`.
    pub open spec fn numbered(n: u16) -> Option<SettingsIdent> {
        if n == 1 {
            Some(SettingsIdent::HeaderTableSize)
        } else if n == 2 {
            Some(SettingsIdent::EnablePush)
        } else if n == 3 {
            Some(SettingsIdent::MaxConcurrentStreams)
        } else if n == 4 {
            Some(SettingsIdent::InitialWindowSize)
        } else if n == 5 {
            Some(SettingsIdent::MaxFrameSize)
        } else if n == 6 {
            Some(SettingsIdent::MaxHeaderListSize)
        } else {
            None
        }
    }

    /// Converts the identifier into its number.
    pub fn as_u16(self) -> (n: u16)
        ensures
            n == self.number(),
            Self::numbered(n) == Some(self),
    {
        match self {
            SettingsIdent::HeaderTableSize => 1,
            SettingsIdent::EnablePush => 2,
            SettingsIdent::MaxConcurrentStreams => 3,
            SettingsIdent::InitialWindowSize => 4,
            SettingsIdent::MaxFrameSize => 5,
            SettingsIdent::MaxHeaderListSize => 6,
        }
    }

    /// Looks up the identifier with the number `n`.
    pub fn from_u16(n: u16) -> (ident: Option<Self>)
        ensures
            ident == Self::numbered(n),
            ident is None <==> n == 0 || n > 6,
    {
        match n {
            1 => Some(SettingsIdent::HeaderTableSize),
            2 => Some(SettingsIdent::EnablePush),
            3 => Some(SettingsIdent::MaxConcurrentStreams),
            4 => Some(SettingsIdent::InitialWindowSize),
            5 => Some(SettingsIdent::MaxFrameSize),
            6 => Some(SettingsIdent::MaxHeaderListSize),
            _ => None,
        }
    }
}

/// The settings of one peer.
#[derive(Debug, Clone, Copy)]
pub struct Settings {
    pub header_table_size: u32,
    pub enable_push: bool,
    pub max_concurrent_streams: Option<u32>,
    pub initial_window_size: u32,
    pub max_frame_size: u32,
    pub max_header_list_size: Option<u32>,
}

impl Default for Settings {
    fn default() -> (settings: Self)
        ensures
            settings == (Settings {
                header_table_size: 4096,
                enable_push: true,
                max_concurrent_streams: None,
                initial_window_size: 65_535,
                max_frame_size: 16_384,
                max_header_list_size: None,
            }),
            settings.wf(),
    {
        Settings {
            header_table_size: 4096,
            enable_push: true,
            max_concurrent_streams: None,
            initial_window_size: 65_535,
            max_frame_size: 16_384,
            max_header_list_size: None,
        }
    }
}

impl Settings {
    /// Every value lies in the range which the protocol allows for it.
    pub open spec fn wf(self) -> bool {
        &&& self.initial_window_size <= WINDOW_SIZE_MAX
        &&& MAX_FRAME_SIZE_MIN <= self.max_frame_size <= MAX_FRAME_SIZE_MAX
    }

    /// The settings after taking over from `frame` what can not fail before the frame size.
    pub open spec fn with_unchecked(self, frame: SettingsFrame) -> Settings {
        Settings {
            header_table_size: frame.header_table_size.unwrap_or(self.header_table_size),
            enable_push: frame.enable_push.unwrap_or(self.enable_push),
            max_concurrent_streams: if frame.max_concurrent_streams is Some {
                frame.max_concurrent_streams
            } else {
                self.max_concurrent_streams
            },
            ..self
        }
    }

    /// The settings after taking over everything from `frame` but the initial window size.
    pub open spec fn with_frame_size(self, frame: SettingsFrame) -> Settings {
        Settings {
            max_frame_size: frame.max_frame_size.unwrap_or(self.max_frame_size),
            max_header_list_size: if frame.max_header_list_size is Some {
                frame.max_header_list_size
            } else {
                self.max_header_list_size
            },
            ..self.with_unchecked(frame)
        }
    }

    /// The settings after taking over everything from `frame`.
    pub open spec fn with_all(self, frame: SettingsFrame) -> Settings {
        Settings {
            initial_window_size: frame.initial_window_size.unwrap_or(self.initial_window_size),
            ..self.with_frame_size(frame)
        }
    }

    /// The outcome of applying `frame`: the settings which are left, and the change of the
    /// initial window size or the error. The values in front of an unacceptable one are kept.
    pub open spec fn applied(self, frame: SettingsFrame) -> (Settings, H2Result<i32>) {
        if frame.max_frame_size matches Some(size) && !(MAX_FRAME_SIZE_MIN <= size
            <= MAX_FRAME_SIZE_MAX) {
            (self.with_unchecked(frame), Err(H2Error::Connection(ErrorCode::ProtocolError)))
        } else if self.initial_window_size > WINDOW_SIZE_MAX {
            (self.with_frame_size(frame), Err(H2Error::Connection(ErrorCode::InternalError)))
        } else if frame.initial_window_size matches Some(size) && size > WINDOW_SIZE_MAX {
            (self.with_frame_size(frame), Err(H2Error::Connection(ErrorCode::FlowControlError)))
        } else {
            let next = self.with_all(frame);
            (next, Ok((next.initial_window_size - self.initial_window_size) as i32))
        }
    }

    /// Applies a settings frame and returns the difference in the initial window size.
    pub fn apply_settings_frame(&mut self, frame: SettingsFrame) -> (dif: H2Result<i32>)
        ensures
            (*final(self), dif) == old(self).applied(frame),
    {
        if let Some(value) = frame.header_table_size {
            self.set_header_table_size(value)?;
        }
        if let Some(value) = frame.enable_push {
            self.set_enable_push(value)?;
        }
        if let Some(value) = frame.max_concurrent_streams {
            self.set_max_concurrent_streams(value)?;
        }
        if let Some(value) = frame.max_frame_size {
            self.set_max_frame_size(value)?;
        }
        if let Some(value) = frame.max_header_list_size {
            self.set_max_header_list_size(value)?;
        }
        if self.initial_window_size > WINDOW_SIZE_MAX {
            return Err(H2Error::Connection(ErrorCode::InternalError));
        }
        let old_size: i32 = self.initial_window_size as i32;
        if let Some(value) = frame.initial_window_size {
            self.set_initial_window_size(value)?;
        }
        let new_size: i32 = self.initial_window_size as i32;

        Ok(new_size - old_size)
    }

    pub fn get_header_table_size(&self) -> (value: u32)
        ensures
            value == self.header_table_size,
    {
        self.header_table_size
    }

    pub fn set_header_table_size(&mut self, value: u32) -> (ret: H2Result<()>)
        ensures
            *final(self) == (Settings { header_table_size: value, ..*old(self) }),
            ret == Ok::<(), H2Error>(()),
    {
        self.header_table_size = value;

        Ok(())
    }

    pub fn get_enable_push(&self) -> (value: bool)
        ensures
            value == self.enable_push,
    {
        self.enable_push
    }

    pub fn set_enable_push(&mut self, value: bool) -> (ret: H2Result<()>)
        ensures
            *final(self) == (Settings { enable_push: value, ..*old(self) }),
            ret == Ok::<(), H2Error>(()),
    {
        self.enable_push = value;

        Ok(())
    }

    pub fn get_max_concurrent_streams(&self) -> (value: Option<u32>)
        ensures
            value == self.max_concurrent_streams,
    {
        self.max_concurrent_streams
    }

    pub fn set_max_concurrent_streams(&mut self, value: u32) -> (ret: H2Result<()>)
        ensures
            *final(self) == (Settings { max_concurrent_streams: Some(value), ..*old(self) }),
            ret == Ok::<(), H2Error>(()),
    {
        self.max_concurrent_streams = Some(value);

        Ok(())
    }

    pub fn get_initial_window_size(&self) -> (value: u32)
        ensures
            value == self.initial_window_size,
    {
        self.initial_window_size
    }

    /// Refuses a window which is bigger than [`WINDOW_SIZE_MAX`].
    pub fn set_initial_window_size(&mut self, value: u32) -> (ret: H2Result<()>)
        ensures
            if value > WINDOW_SIZE_MAX {
                &&& *final(self) == *old(self)
                &&& ret == Err::<(), H2Error>(H2Error::Connection(ErrorCode::FlowControlError))
            } else {
                &&& *final(self) == (Settings { initial_window_size: value, ..*old(self) })
                &&& ret == Ok::<(), H2Error>(())
            },
    {
        if value > WINDOW_SIZE_MAX {
            return Err(H2Error::Connection(ErrorCode::FlowControlError));
        }
        self.initial_window_size = value;

        Ok(())
    }

    pub fn get_max_frame_size(&self) -> (value: u32)
        ensures
            value == self.max_frame_size,
    {
        self.max_frame_size
    }

    /// Refuses a size outside of [`MAX_FRAME_SIZE_MIN`] to [`MAX_FRAME_SIZE_MAX`].
    pub fn set_max_frame_size(&mut self, value: u32) -> (ret: H2Result<()>)
        ensures
            if MAX_FRAME_SIZE_MIN <= value <= MAX_FRAME_SIZE_MAX {
                &&& *final(self) == (Settings { max_frame_size: value, ..*old(self) })
                &&& ret == Ok::<(), H2Error>(())
            } else {
                &&& *final(self) == *old(self)
                &&& ret == Err::<(), H2Error>(H2Error::Connection(ErrorCode::ProtocolError))
            },
    {
        if MAX_FRAME_SIZE_MIN > value || value > MAX_FRAME_SIZE_MAX {
            return Err(H2Error::Connection(ErrorCode::ProtocolError));
        }
        self.max_frame_size = value;

        Ok(())
    }

    pub fn get_max_header_list_size(&self) -> (value: Option<u32>)
        ensures
            value == self.max_header_list_size,
    {
        self.max_header_list_size
    }

    pub fn set_max_header_list_size(&mut self, value: u32) -> (ret: H2Result<()>)
        ensures
            *final(self) == (Settings { max_header_list_size: Some(value), ..*old(self) }),
            ret == Ok::<(), H2Error>(()),
    {
        self.max_header_list_size = Some(value);

        Ok(())
    }
}

/// Well-formed settings stay well-formed, whatever frame is applied to them and whether or not
/// it is accepted.
pub proof fn law_apply_keeps_wf(settings: Settings, frame: SettingsFrame)
    requires
        settings.wf(),
    ensures
        settings.applied(frame).0.wf(),
{
}

/// The returned difference is exactly by how much the initial window size moved.
pub proof fn law_apply_difference(settings: Settings, frame: SettingsFrame)
    ensures
        settings.applied(frame).1 matches Ok(dif) ==> settings.initial_window_size + dif
            == settings.applied(frame).0.initial_window_size,
{
}

/// Applying the same frame a second time changes nothing and reports no difference.
pub proof fn law_apply_twice(settings: Settings, frame: SettingsFrame)
    requires
        settings.applied(frame).1 is Ok,
    ensures
        settings.applied(frame).0.applied(frame) == (settings.applied(frame).0, Ok::<i32, H2Error>(
            0,
        )),
{
}

/// Settings are accepted exactly if the frame size limit lies between 2^14 and 2^24 - 1 and the
/// window is smaller than 2^31. Each value which is announced is taken over, and each one which is
/// not stays as it was.
pub proof fn law_announced_settings_are_taken_over(settings: Settings, frame: SettingsFrame)
    requires
        settings.wf(),
    ensures
        ({
            let (next, dif) = settings.applied(frame);
            let size_ok = frame.max_frame_size matches Some(size) ==> 0x4000 <= size < 0x100_0000;
            let window_ok = frame.initial_window_size matches Some(size) ==> size < 0x8000_0000;
            &&& dif is Ok <==> size_ok && window_ok
            &&& !size_ok ==> dif == Err::<i32, H2Error>(
                H2Error::Connection(ErrorCode::ProtocolError),
            )
            &&& size_ok && !window_ok ==> dif == Err::<i32, H2Error>(
                H2Error::Connection(ErrorCode::FlowControlError),
            )
            &&& dif is Ok ==> {
                &&& match frame.header_table_size {
                    Some(value) => next.header_table_size == value,
                    None => next.header_table_size == settings.header_table_size,
                }
                &&& match frame.enable_push {
                    Some(value) => next.enable_push == value,
                    None => next.enable_push == settings.enable_push,
                }
                &&& match frame.max_concurrent_streams {
                    Some(value) => next.max_concurrent_streams == Some(value),
                    None => next.max_concurrent_streams == settings.max_concurrent_streams,
                }
                &&& match frame.initial_window_size {
                    Some(value) => next.initial_window_size == value,
                    None => next.initial_window_size == settings.initial_window_size,
                }
                &&& match frame.max_frame_size {
                    Some(value) => next.max_frame_size == value,
                    None => next.max_frame_size == settings.max_frame_size,
                }
                &&& match frame.max_header_list_size {
                    Some(value) => next.max_header_list_size == Some(value),
                    None => next.max_header_list_size == settings.max_header_list_size,
                }
            }
            &&& dif is Err ==> next.initial_window_size == settings.initial_window_size
        }),
{
}

} // verus!
