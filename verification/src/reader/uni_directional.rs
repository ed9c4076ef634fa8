//! The uni-directional profile: the reader of a sealed stream, which
//! expects `START`, then data frames, then `STOP`, and writes nothing.

use vstd::prelude::*;
use crate::Error;
use crate::Frame;
use crate::control::Control;
use crate::reader::BaseReader;
use crate::reader::Builder;
use crate::reader::start_admitted;
use crate::reader::start_chosen;
use crate::reader::start_refusal;
use crate::session::Session;
use crate::wire::dec_frame;
use crate::wire::ControlV;
use crate::wire::FrameV;

verus! {

/// Performs the uni-directional handshake: reads one frame, which must be
/// `START` with an admissible content type, and hands back the reader for
/// the data phase.
pub fn build(builder: Builder) -> (r: Result<BaseReader, Error>)
    requires
        builder.wf(),
    ensures
        ({
            let (res, n) = dec_frame(builder.input());
            match res {
                Err(e) => r == Err::<BaseReader, Error>(e),
                Ok(fv) => match fv {
                    FrameV::Control(cv) => match cv {
                        ControlV::Start(fs) => if start_admitted(fs, builder.local_cts()) {
                            r matches Ok(b) && b.wf() && !b.stopped() && b.rest()
                                == builder.input().skip(n) && b.chosen() == start_chosen(fs)
                        } else {
                            r == Err::<BaseReader, Error>(start_refusal(fs))
                        },
                        _ => r == Err::<BaseReader, Error>(Error::UnexpectedControl),
                    },
                    FrameV::Data(_) => r == Err::<BaseReader, Error>(Error::UnexpectedControl),
                },
            }
        }),
{
    let mut builder = builder;
    let frame = match builder.source.read_frame() {
        Ok(f) => f,
        Err(e) => {
            return Err(e);
        },
    };
    match frame {
        Frame::Control(control) => match control {
            Control::Start(data) => {
                let Builder { source, content_types } = builder;
                let mut session = Session::new(content_types);
                match session.start(data) {
                    Ok(_) => Ok(BaseReader { source, session }),
                    Err(e) => Err(e),
                }
            },
            _ => Err(Error::UnexpectedControl),
        },
        Frame::Data(_) => Err(Error::UnexpectedControl),
    }
}

} // verus!
