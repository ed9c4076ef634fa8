//! The read side: the in-memory byte source with the frame-level read
//! primitives, and the reader facade built on it.

use vstd::prelude::*;
use crate::Error;
use crate::FrameHeader;
use crate::FstrmLength;
use crate::Frame;
use crate::Payload;
use crate::control::ContentType;
use crate::control::Control;
use crate::control::Data;
use crate::control::cts_view;
use crate::session::Phase;
use crate::session::Session;
use crate::wire::dec_control;
use crate::wire::dec_frame;
use crate::wire::u32_of_be;
use crate::wire::FieldV;
use crate::wire::FrameV;

pub mod uni_directional;
pub mod bi_directional;

verus! {

/// A byte source: a buffer of stream bytes and a cursor. Its view is the
/// sequence of bytes not yet consumed.
pub struct Source {
    data: Vec<u8>,
    pos: usize,
}

impl View for Source {
    type V = Seq<u8>;

    closed spec fn view(&self) -> Seq<u8> {
        self.data@.skip(self.pos as int)
    }
}

impl Source {
    /// The cursor never passes the end of the buffer.
    pub closed spec fn wf(self) -> bool {
        self.pos <= self.data@.len()
    }

    /// A source over the given bytes, none consumed yet.
    pub fn new(data: Vec<u8>) -> (s: Source)
        ensures
            s.wf(),
            s@ == data@,
    {
        let s = Source { data, pos: 0 };
        proof {
            assert(s@ =~= s.data@);
        }
        s
    }

    /// The bytes of the stream, consumed or not, owned.
    pub fn into_inner(self) -> (r: Vec<u8>)
        ensures
            self.wf() ==> r@.skip(r@.len() - self@.len()) == self@,
    {
        self.data
    }

    /// Reads one 32-bit big-endian value.
    pub fn read_frame_value(&mut self) -> (r: Result<u32, Error>)
        requires
            old(self).wf(),
        ensures
            final(self).wf(),
            match r {
                Ok(v) => old(self)@.len() >= 4 && v == u32_of_be(old(self)@.take(4)) && final(self)@ == old(self)@.skip(4),
                Err(e) => e == Error::Truncated && old(self)@.len() < 4 && *final(self) == *old(self),
            },
    {
        if self.data.len() - self.pos >= 4 {
            let b0 = self.data[self.pos];
            let b1 = self.data[self.pos + 1];
            let b2 = self.data[self.pos + 2];
            let b3 = self.data[self.pos + 3];
            let v = ((b0 as u32) << 24) | ((b1 as u32) << 16) | ((b2 as u32) << 8) | (b3 as u32);
            proof {
                assert(old(self)@.take(4) =~= seq![b0, b1, b2, b3]);
            }
            self.pos = self.pos + 4;
            proof {
                assert(self@ =~= old(self)@.skip(4));
            }
            Ok(v)
        } else {
            Err(Error::Truncated)
        }
    }

    /// Reads exactly `len` bytes, or fails without consuming when fewer
    /// remain.
    pub fn read_frame_data_for_len(&mut self, len: FstrmLength) -> (r: Result<Vec<u8>, Error>)
        requires
            old(self).wf(),
        ensures
            final(self).wf(),
            match r {
                Ok(v) => old(self)@.len() >= len && v@ == old(self)@.take(len as int) && final(self)@ == old(self)@.skip(len as int),
                Err(e) => e == Error::Truncated && old(self)@.len() < len && *final(self) == *old(self),
            },
    {
        if self.data.len() - self.pos >= len as usize {
            let dlen = self.data.len();
            let mut v: Vec<u8> = Vec::new();
            let mut i: usize = 0;
            while i < len as usize
                invariant
                    i <= len as usize,
                    self == old(self),
                    old(self).wf(),
                    old(self)@.len() >= len,
                    self.data@.len() == dlen as int,
                    self.pos + len as int <= self.data@.len(),
                    v@ == old(self)@.take(i as int),
                decreases len as usize - i,
            {
                v.push(self.data[self.pos + i]);
                proof {
                    assert(v@ =~= old(self)@.take(i + 1));
                }
                i = i + 1;
            }
            self.pos = self.pos + len as usize;
            proof {
                assert(self@ =~= old(self)@.skip(len as int));
            }
            Ok(v)
        } else {
            Err(Error::Truncated)
        }
    }

    /// Discards exactly `len` bytes, bounded by the end of the stream.
    pub fn consume(&mut self, len: FstrmLength)
        requires
            old(self).wf(),
        ensures
            final(self).wf(),
            final(self)@ == if len <= old(self)@.len() {
                old(self)@.skip(len as int)
            } else {
                Seq::<u8>::empty()
            },
    {
        let rem = self.data.len() - self.pos;
        let n = if len as usize <= rem {
            len as usize
        } else {
            rem
        };
        self.pos = self.pos + n;
        proof {
            if len <= old(self)@.len() {
                assert(self@ =~= old(self)@.skip(len as int));
            } else {
                assert(self@ =~= Seq::<u8>::empty());
            }
        }
    }

    /// Reads the next frame header: a zero word escapes to a control
    /// frame, any other word is a data frame's payload length.
    pub fn read_frame_header(&mut self) -> (r: Result<FrameHeader, Error>)
        requires
            old(self).wf(),
        ensures
            final(self).wf(),
            match r {
                Ok(h) => old(self)@.len() >= 4 && final(self)@ == old(self)@.skip(4) && h == (
                if u32_of_be(old(self)@.take(4)) == 0 {
                    FrameHeader::ControlHeader
                } else {
                    FrameHeader::Length(u32_of_be(old(self)@.take(4)))
                }),
                Err(e) => e == Error::Truncated && old(self)@.len() < 4 && *final(self) == *old(self),
            },
    {
        let value = match self.read_frame_value() {
            Ok(v) => v,
            Err(e) => {
                return Err(e);
            },
        };
        if value == 0 {
            Ok(FrameHeader::ControlHeader)
        } else {
            Ok(FrameHeader::Length(value))
        }
    }

    /// Reads a frame header that must be a data frame's length.
    pub fn read_frame_len(&mut self) -> (r: Result<FstrmLength, Error>)
        requires
            old(self).wf(),
        ensures
            final(self).wf(),
            match r {
                Ok(l) => old(self)@.len() >= 4 && l == u32_of_be(old(self)@.take(4)) && l != 0
                    && final(self)@ == old(self)@.skip(4),
                Err(e) => {
                    &&& (e == Error::Truncated || e == Error::FrameFormat)
                    &&& (e == Error::Truncated <==> old(self)@.len() < 4)
                    &&& (e == Error::Truncated ==> *final(self) == *old(self))
                    &&& (e == Error::FrameFormat ==> u32_of_be(old(self)@.take(4)) == 0 && final(self)@ == old(self)@.skip(4))
                },
            },
    {
        match self.read_frame_header() {
            Ok(FrameHeader::Length(l)) => Ok(l),
            Ok(FrameHeader::ControlHeader) => Err(Error::FrameFormat),
            Err(e) => Err(e),
        }
    }

    /// Reads a data frame's length and then its payload.
    pub fn read_frame_data(&mut self) -> (r: Result<Vec<u8>, Error>)
        requires
            old(self).wf(),
        ensures
            final(self).wf(),
            match r {
                Ok(v) => {
                    let h = u32_of_be(old(self)@.take(4));
                    &&& old(self)@.len() >= 4
                    &&& h != 0
                    &&& old(self)@.len() >= 4 + h
                    &&& v@ == old(self)@.subrange(4, 4 + h as int)
                    &&& final(self)@ == old(self)@.skip(4 + h as int)
                },
                Err(e) => {
                    &&& (e == Error::Truncated || e == Error::FrameFormat)
                    &&& (e == Error::FrameFormat ==> old(self)@.len() >= 4 && u32_of_be(
                        old(self)@.take(4),
                    ) == 0)
                    &&& (e == Error::Truncated ==> old(self)@.len() < 4 || (u32_of_be(
                        old(self)@.take(4),
                    ) != 0 && old(self)@.len() < 4 + u32_of_be(old(self)@.take(4))))
                },
            },
    {
        let len = match self.read_frame_len() {
            Ok(l) => l,
            Err(e) => {
                return Err(e);
            },
        };
        match self.read_frame_data_for_len(len) {
            Ok(v) => {
                proof {
                    assert(old(self)@.skip(4).take(len as int) =~= old(self)@.subrange(
                        4,
                        4 + len as int,
                    ));
                    assert(old(self)@.skip(4).skip(len as int) =~= old(self)@.skip(4 + len as int));
                }
                Ok(v)
            },
            Err(e) => Err(e),
        }
    }

    /// Reads a control frame, the escape word already consumed.
    pub fn read_frame_control(&mut self) -> (r: Result<Control, Error>)
        requires
            old(self).wf(),
        ensures
            final(self).wf(),
            ({
                let (res, n) = dec_control(old(self)@);
                &&& final(self)@ == old(self)@.skip(n)
                &&& match res {
                    Ok(cv) => r matches Ok(c) && c@ == cv,
                    Err(e) => r matches Err(e2) && e2 == e,
                }
            }),
    {
        Control::decode(self)
    }

    /// Reads the next frame, data or control, moving the stream past it:
    /// exactly as far as the frame declared, even when a control body turns
    /// out malformed, so that one bad frame leaves the stream aligned on
    /// the next.
    pub fn read_frame(&mut self) -> (r: Result<Frame, Error>)
        requires
            old(self).wf(),
        ensures
            final(self).wf(),
            ({
                let (res, n) = dec_frame(old(self)@);
                &&& final(self)@ == old(self)@.skip(n)
                &&& match res {
                    Ok(fv) => r matches Ok(f) && f@ == fv,
                    Err(e) => r matches Err(e2) && e2 == e,
                }
            }),
    {
        let ghost b = old(self)@;
        let header = match self.read_frame_header() {
            Ok(h) => h,
            Err(e) => {
                proof {
                    assert(b.skip(0) =~= b);
                }
                return Err(e);
            },
        };
        match header {
            FrameHeader::Length(l) => {
                match self.read_frame_data_for_len(l) {
                    Ok(payload) => {
                        proof {
                            assert(b.skip(4).take(l as int) =~= b.subrange(4, 4 + l as int));
                            assert(b.skip(4).skip(l as int) =~= b.skip(4 + l as int));
                        }
                        Ok(Frame::Data(payload))
                    },
                    Err(e) => Err(e),
                }
            },
            FrameHeader::ControlHeader => {
                match self.read_frame_control() {
                    Ok(control) => Ok(Frame::Control(control)),
                    Err(e) => Err(e),
                }
            },
        }
    }
}

/// Whether a `START` body passes the content-type check against the list
/// `l`: no field at all, or one `CONTENT_TYPE` field whose bytes `l`
/// admits (an empty `l` admits any).
pub open spec fn start_admitted(fs: Seq<FieldV>, l: Seq<Seq<u8>>) -> bool {
    ||| fs.len() == 0
    ||| (fs.len() == 1 && (fs[0] matches FieldV::ContentType(s) && (l.len() == 0 || l.contains(
        s,
    ))))
}

/// The content type a `START` body names, if any.
pub open spec fn start_chosen(fs: Seq<FieldV>) -> Option<Seq<u8>> {
    if fs.len() == 1 && fs[0] is ContentType {
        Some(fs[0]->ContentType_0)
    } else {
        None
    }
}

/// The error a refused `START` body draws: a mismatch when it names a
/// content type outside the list, a refusal for any other shape.
pub open spec fn start_refusal(fs: Seq<FieldV>) -> Error {
    if fs.len() == 1 && fs[0] is ContentType {
        Error::ContentTypeMismatch
    } else {
        Error::UnexpectedControl
    }
}

/// The handshake front end: the byte source to read the stream from and
/// the local allow-list, before any frame was read.
pub struct Builder {
    pub(crate) source: Source,
    pub(crate) content_types: Vec<ContentType>,
}

impl Builder {
    /// The stream bytes not yet consumed.
    pub closed spec fn input(self) -> Seq<u8> {
        self.source@
    }

    /// The local allow-list, as byte sequences.
    pub closed spec fn local_cts(self) -> Seq<Seq<u8>> {
        cts_view(self.content_types@)
    }

    /// The byte source is well formed.
    pub closed spec fn wf(self) -> bool {
        self.source.wf()
    }

    /// A builder over the given byte source and allow-list.
    pub fn new(inner: Source, content_types: Vec<ContentType>) -> (r: Builder)
        requires
            inner.wf(),
        ensures
            r.wf(),
            r.input() == inner@,
            r.local_cts() == cts_view(content_types@),
    {
        Builder { source: inner, content_types }
    }

    /// The underlying byte source, given back.
    pub fn into_inner(self) -> (r: Source)
        ensures
            self.wf() ==> r.wf(),
            r@ == self.input(),
    {
        self.source
    }
}

/// A session in its data phase over an in-memory byte source: yields one
/// payload per data frame until the stream ends cleanly or fails.
pub struct BaseReader {
    pub(crate) source: Source,
    pub(crate) session: Session,
}

impl BaseReader {
    /// The stream bytes not yet consumed.
    pub closed spec fn rest(self) -> Seq<u8> {
        self.source@
    }

    /// The content type the stream's `START` named, if any.
    pub closed spec fn chosen(self) -> Option<Seq<u8>> {
        self.session.chosen()
    }

    /// Whether the stream already ended cleanly.
    pub closed spec fn stopped(self) -> bool {
        self.session.phase() is Stopped
    }

    /// The source is well formed and the session is in its data phase.
    pub closed spec fn wf(self) -> bool {
        &&& self.source.wf()
        &&& (self.session.phase() is Started || self.session.phase() is Stopped)
    }

    /// A reader over the builder's source, given the body of the `START`
    /// frame just read: the named content type, if any, must pass the
    /// builder's allow-list.
    pub fn new(start: Data, builder: Builder) -> (r: Option<BaseReader>)
        requires
            builder.wf(),
        ensures
            match r {
                Some(b) => {
                    &&& start_admitted(start@, builder.local_cts())
                    &&& b.wf()
                    &&& !b.stopped()
                    &&& b.rest() == builder.input()
                    &&& b.chosen() == start_chosen(start@)
                },
                None => !start_admitted(start@, builder.local_cts()),
            },
    {
        let Builder { source, content_types } = builder;
        let mut session = Session::new(content_types);
        match session.start(start) {
            Ok(_) => Some(BaseReader { source, session }),
            Err(_) => None,
        }
    }

    /// The content type the stream's `START` named, if any.
    pub fn content_type_ref(&self) -> (r: Option<&ContentType>)
        ensures
            match r {
                Some(ct) => self.chosen() == Some(ct@),
                None => self.chosen() is None,
            },
    {
        self.session.content_type_ref()
    }

    /// The next payload: `Some(Ok(bytes))` for a data frame, `None` once
    /// `STOP` or `FINISH` arrived (and on every call after that), and
    /// `Some(Err(..))` when the frame was malformed, truncated, or a
    /// control frame the data phase refuses.
    pub fn next(&mut self) -> (r: Option<Result<Payload, Error>>)
        requires
            old(self).wf(),
        ensures
            final(self).wf(),
            final(self).chosen() == old(self).chosen(),
            if old(self).stopped() {
                r is None && *final(self) == *old(self)
            } else {
                let (res, n) = dec_frame(old(self).rest());
                &&& final(self).rest() == old(self).rest().skip(n)
                &&& match res {
                    Ok(fv) => match fv {
                        FrameV::Data(d) => (r matches Some(rr) && rr matches Ok(p) && p@ == d)
                            && !final(self).stopped(),
                        FrameV::Control(cv) => if cv is Stop || cv is Finish {
                            r is None && final(self).stopped()
                        } else {
                            r == Some(Err::<Payload, Error>(Error::UnexpectedControl))
                                && !final(self).stopped()
                        },
                    },
                    Err(e) => r == Some(Err::<Payload, Error>(e)) && !final(self).stopped(),
                }
            },
    {
        if self.session.current_phase() == Phase::Stopped {
            return None;
        }
        match self.source.read_frame() {
            Err(e) => Some(Err(e)),
            Ok(frame) => match self.session.read_frame(frame) {
                Ok(Some(payload)) => Some(Ok(payload)),
                Ok(None) => None,
                Err(e) => Some(Err(e)),
            },
        }
    }

    /// The underlying byte source, given back after the session ends.
    pub fn into_inner(self) -> (r: Source)
        ensures
            self.wf() ==> r.wf(),
            r@ == self.rest(),
    {
        self.source
    }
}

} // verus!
