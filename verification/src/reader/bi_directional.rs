//! The bi-directional profile: the reader that answers a `READY` offer
//! with `ACCEPT`, negotiating content types, and emits `FINISH` on
//! teardown. A stream that opens with `START` instead falls back to the
//! uni-directional profile.

use vstd::prelude::*;
use crate::Error;
use crate::Frame;
use crate::Payload;
use crate::control::ContentType;
use crate::control::Control;
use crate::reader::BaseReader;
use crate::reader::Builder;
use crate::reader::start_admitted;
use crate::reader::start_chosen;
use crate::reader::start_refusal;
use crate::session::Session;
use crate::session::content_types_of;
use crate::session::cts_to_fields;
use crate::session::lemma_accept_wf;
use crate::session::negotiated_list;
use crate::wire::dec_frame;
use crate::wire::enc_frame;
use crate::wire::fields_size;
use crate::wire::lemma_dec_frame_control_sizes;
use crate::wire::ControlV;
use crate::wire::FrameV;

verus! {

/// A session in its data phase, together with what was written on its
/// behalf: nothing for a uni-directional stream, the `ACCEPT` frame (and
/// later `FINISH`) for a bi-directional one.
pub enum Reader {
    UniDirectional(BaseReader),
    BiDirectional(BaseReader, Vec<u8>),
}

impl Reader {
    /// The underlying data-phase reader.
    pub open spec fn base(self) -> BaseReader {
        match self {
            Reader::UniDirectional(b) => b,
            Reader::BiDirectional(b, _) => b,
        }
    }

    /// The bytes written to the peer so far.
    pub open spec fn written(self) -> Seq<u8> {
        match self {
            Reader::UniDirectional(_) => Seq::empty(),
            Reader::BiDirectional(_, out) => out@,
        }
    }

    /// The underlying reader is well formed.
    pub open spec fn wf(self) -> bool {
        self.base().wf()
    }

    /// The underlying data-phase reader, shared.
    pub fn base_ref(&self) -> (r: &BaseReader)
        ensures
            *r == self.base(),
    {
        match self {
            Reader::UniDirectional(base) => base,
            Reader::BiDirectional(base, _) => base,
        }
    }

    /// The underlying data-phase reader, exclusively, for reading.
    pub fn read_mut(&mut self) -> (r: &mut BaseReader)
        ensures
            *r == old(self).base(),
            final(self).base() == *final(r),
            final(self).written() == old(self).written(),
            (*final(self) is BiDirectional) == (*old(self) is BiDirectional),
    {
        match self {
            Reader::UniDirectional(base) => base,
            Reader::BiDirectional(base, _) => base,
        }
    }

    /// The underlying reader of a bi-directional session, exclusively, for
    /// writing; a uni-directional session has no write side.
    pub fn write_mut(&mut self) -> (r: &mut BaseReader)
        requires
            *old(self) is BiDirectional,
        ensures
            *r == old(self).base(),
            final(self).base() == *final(r),
            final(self).written() == old(self).written(),
            *final(self) is BiDirectional,
    {
        match self {
            Reader::UniDirectional(_) => {
                proof {
                    assert(false);
                }
                vstd::pervasive::unreached()
            },
            Reader::BiDirectional(base, _) => base,
        }
    }

    /// The content type the stream's `START` named, if any.
    pub fn content_type_ref(&self) -> (r: Option<&ContentType>)
        ensures
            match r {
                Some(ct) => self.base().chosen() == Some(ct@),
                None => self.base().chosen() is None,
            },
    {
        self.base_ref().content_type_ref()
    }

    /// The next payload, exactly as the underlying reader yields it;
    /// nothing is written.
    pub fn next(&mut self) -> (r: Option<Result<Payload, Error>>)
        requires
            old(self).wf(),
        ensures
            final(self).wf(),
            final(self).written() == old(self).written(),
            (*final(self) is BiDirectional) == (*old(self) is BiDirectional),
            final(self).base().chosen() == old(self).base().chosen(),
            if old(self).base().stopped() {
                r is None && final(self).base() == old(self).base()
            } else {
                let (res, n) = dec_frame(old(self).base().rest());
                &&& final(self).base().rest() == old(self).base().rest().skip(n)
                &&& match res {
                    Ok(fv) => match fv {
                        FrameV::Data(d) => (r matches Some(rr) && rr matches Ok(p) && p@ == d)
                            && !final(self).base().stopped(),
                        FrameV::Control(cv) => if cv is Stop || cv is Finish {
                            r is None && final(self).base().stopped()
                        } else {
                            r == Some(Err::<Payload, Error>(Error::UnexpectedControl))
                                && !final(self).base().stopped()
                        },
                    },
                    Err(e) => r == Some(Err::<Payload, Error>(e)) && !final(self).base().stopped(),
                }
            },
    {
        match self {
            Reader::UniDirectional(base) => base.next(),
            Reader::BiDirectional(base, _) => base.next(),
        }
    }

    /// Ends the session: a bi-directional reader appends the `FINISH`
    /// frame to its outbound bytes, a uni-directional one writes nothing.
    /// Gives back the byte source and everything written.
    pub fn finish(self) -> (r: (Source, Vec<u8>))
        requires
            self.wf(),
        ensures
            r.0.wf(),
            r.0@ == self.base().rest(),
            if self is BiDirectional {
                r.1@ == self.written() + enc_frame(FrameV::Control(ControlV::Finish))
            } else {
                r.1@ == Seq::<u8>::empty()
            },
    {
        match self {
            Reader::UniDirectional(base) => (base.into_inner(), Vec::new()),
            Reader::BiDirectional(base, mut out) => {
                let ghost written = out@;
                proof {
                    assert(fields_size(crate::wire::control_fields(ControlV::Finish)) == 0);
                }
                let frame = Frame::Control(Control::Finish);
                match frame.encode(&mut out) {
                    Ok(_) => {},
                    Err(_) => {
                        proof {
                            assert(false);
                        }
                    },
                }
                (base.into_inner(), out)
            },
        }
    }
}

use crate::reader::Source;

/// Performs the handshake from the consumer's side. A first frame of
/// `READY` starts the bi-directional profile: the offered content types
/// are negotiated against the local list, the `ACCEPT` answer carrying
/// exactly the negotiated types is written, and the peer's `START` must
/// then name one of them. A first frame of `START` falls back to the
/// uni-directional profile. Anything else is refused.
pub fn build(builder: Builder) -> (r: Result<Reader, Error>)
    requires
        builder.wf(),
    ensures
        ({
            let (res1, n1) = dec_frame(builder.input());
            let l = builder.local_cts();
            match res1 {
                Err(e) => r == Err::<Reader, Error>(e),
                Ok(fv1) => match fv1 {
                    FrameV::Data(_) => r == Err::<Reader, Error>(Error::UnexpectedControl),
                    FrameV::Control(cv1) => match cv1 {
                        ControlV::Start(fs) => if start_admitted(fs, l) {
                            r matches Ok(rd) && !(rd is BiDirectional) && rd.wf() && !rd.base(
                            ).stopped() && rd.base().rest() == builder.input().skip(n1) && rd.base(
                            ).chosen() == start_chosen(fs) && rd.written() == Seq::<u8>::empty()
                        } else {
                            r == Err::<Reader, Error>(start_refusal(fs))
                        },
                        ControlV::Ready(fs) => {
                            let nl = negotiated_list(l, content_types_of(fs));
                            if nl.len() == 0 {
                                r == Err::<Reader, Error>(Error::ContentTypeMismatch)
                            } else {
                                let accept_bytes = enc_frame(
                                    FrameV::Control(ControlV::Accept(cts_to_fields(nl))),
                                );
                                let (res2, n2) = dec_frame(builder.input().skip(n1));
                                match res2 {
                                    Err(e) => r == Err::<Reader, Error>(e),
                                    Ok(fv2) => match fv2 {
                                        FrameV::Data(_) => r == Err::<Reader, Error>(
                                            Error::UnexpectedControl,
                                        ),
                                        FrameV::Control(cv2) => match cv2 {
                                            ControlV::Start(fs2) => if start_admitted(fs2, nl) {
                                                r matches Ok(rd) && rd is BiDirectional && rd.wf()
                                                    && !rd.base().stopped() && rd.base().rest()
                                                    == builder.input().skip(n1).skip(n2)
                                                    && rd.base().chosen() == start_chosen(fs2)
                                                    && rd.written() == accept_bytes
                                            } else {
                                                r == Err::<Reader, Error>(start_refusal(fs2))
                                            },
                                            _ => r == Err::<Reader, Error>(
                                                Error::UnexpectedControl,
                                            ),
                                        },
                                    },
                                }
                            }
                        },
                        _ => r == Err::<Reader, Error>(Error::UnexpectedControl),
                    },
                },
            }
        }),
{
    let ghost b0 = builder.input();
    let ghost l = builder.local_cts();
    let Builder { mut source, content_types } = builder;
    let mut session = Session::new(content_types);
    let frame = match source.read_frame() {
        Ok(f) => f,
        Err(e) => {
            return Err(e);
        },
    };
    match frame {
        Frame::Data(_) => Err(Error::UnexpectedControl),
        Frame::Control(control) => match control {
            Control::Start(data) => match session.start(data) {
                Ok(_) => Ok(Reader::UniDirectional(BaseReader { source, session })),
                Err(e) => Err(e),
            },
            Control::Ready(data) => {
                let ghost fs0 = data@;
                let accept = match session.accept(data) {
                    Ok(c) => c,
                    Err(e) => {
                        return Err(e);
                    },
                };
                proof {
                    lemma_dec_frame_control_sizes(b0);
                    lemma_accept_wf(l, fs0);
                }
                let mut out: Vec<u8> = Vec::new();
                let accept_frame = Frame::Control(accept);
                match accept_frame.encode(&mut out) {
                    Ok(_) => {},
                    Err(_) => {
                        proof {
                            assert(false);
                        }
                    },
                }
                proof {
                    assert(out@ =~= enc_frame(accept_frame@));
                }
                let frame2 = match source.read_frame() {
                    Ok(f) => f,
                    Err(e) => {
                        return Err(e);
                    },
                };
                match frame2 {
                    Frame::Data(_) => Err(Error::UnexpectedControl),
                    Frame::Control(control2) => match control2 {
                        Control::Start(data2) => match session.start(data2) {
                            Ok(_) => Ok(Reader::BiDirectional(BaseReader { source, session }, out)),
                            Err(e) => Err(e),
                        },
                        _ => Err(Error::UnexpectedControl),
                    },
                }
            },
            _ => Err(Error::UnexpectedControl),
        },
    }
}

} // verus!
