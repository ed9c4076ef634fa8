//! Frame Streams: a length-prefixed, framed transport for structured
//! payloads, with data frames, typed control frames, and a session state
//! machine covering the uni-directional and bi-directional profiles.

use vstd::prelude::*;

pub mod control;
pub mod reader;
pub mod session;
pub mod writer;
pub mod wire;

pub use control::Control;
pub use control::ContentType;
pub use control::Data as ControlData;
pub use control::Field as ControlField;

verus! {

use crate::control::put_u32;
use crate::control::push_bytes;
use crate::wire::enc_frame;
use crate::wire::control_wf;
use crate::wire::FrameV;

/// An opaque data-frame payload.
pub type Payload = Vec<u8>;

/// The 32-bit big-endian integer used for frame lengths, control types and
/// field tags.
pub type FstrmLength = u32;

/// The ways a frame stream can fail.
#[derive(Copy, Clone, Debug, PartialEq, Eq, Structural)]
pub enum Error {
    /// The stream ended in the middle of a frame.
    Truncated,
    /// A control frame or control field broke the wire format.
    FrameFormat,
    /// Content-type negotiation failed, or `START` named a content type
    /// outside the negotiated set.
    ContentTypeMismatch,
    /// A control frame arrived where the session required data or a
    /// different control type.
    UnexpectedControl,
}

/// The first word of a frame: a zero escape announcing a control frame, or
/// a data frame's payload length.
#[derive(Copy, Clone, Debug, PartialEq, Eq, Structural)]
pub enum FrameHeader {
    ControlHeader,
    Length(FstrmLength),
}

impl FrameHeader {
    /// Whether the header carries a data frame's payload length.
    pub fn is_length(&self) -> (r: bool)
        ensures
            r == (self is Length),
    {
        match self {
            FrameHeader::Length(_) => true,
            FrameHeader::ControlHeader => false,
        }
    }

    /// Whether the header escapes to a control frame.
    pub fn is_control_header(&self) -> (r: bool)
        ensures
            r == (self is ControlHeader),
    {
        !self.is_length()
    }
}

/// One frame of the stream: protocol metadata or an opaque payload.
#[derive(Debug, Clone, PartialEq, Eq)]
pub enum Frame {
    Control(Control),
    Data(Payload),
}

impl View for Frame {
    type V = FrameV;

    open spec fn view(&self) -> FrameV {
        match self {
            Frame::Control(c) => FrameV::Control(c@),
            Frame::Data(p) => FrameV::Data(p@),
        }
    }
}

impl Frame {
    /// Whether the frame is a control frame.
    pub fn is_control(&self) -> (r: bool)
        ensures
            r == (self is Control),
    {
        match self {
            Frame::Control(_) => true,
            Frame::Data(_) => false,
        }
    }

    /// Whether the frame is a data frame.
    pub fn is_data(&self) -> (r: bool)
        ensures
            r == (self is Data),
    {
        !self.is_control()
    }

    /// Writes the frame: for data, the payload length and the payload; for
    /// control, the zero escape word and the control encoding. A data frame
    /// with an empty payload is rejected: on the wire it would collide with
    /// the control-frame escape.
    pub fn encode(&self, out: &mut Vec<u8>) -> (r: Result<(), Error>)
        requires
            self matches Frame::Data(p) ==> p@.len() <= u32::MAX,
            self matches Frame::Control(c) ==> control_wf(c@),
        ensures
            if self matches Frame::Data(p) && p@.len() == 0 {
                r == Err::<(), Error>(Error::FrameFormat) && final(out)@ == old(out)@
            } else {
                r is Ok && final(out)@ == old(out)@ + enc_frame(self@)
            },
    {
        match self {
            Frame::Data(payload) => {
                if payload.len() == 0 {
                    return Err(Error::FrameFormat);
                }
                put_u32(out, payload.len() as u32);
                push_bytes(out, payload);
                proof {
                    assert(final(out)@ =~= old(out)@ + enc_frame(self@));
                }
                Ok(())
            },
            Frame::Control(control) => {
                put_u32(out, 0);
                control.encode(out);
                proof {
                    assert(final(out)@ =~= old(out)@ + enc_frame(self@));
                }
                Ok(())
            },
        }
    }
}

} // verus!
