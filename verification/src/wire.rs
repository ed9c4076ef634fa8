//! Mathematical model of the wire format: ghost mirrors of the frame types,
//! the encoding and decoding functions on byte sequences, and the laws that
//! relate them (round trips, size formulas, and the error guarantees).

use vstd::prelude::*;
use crate::Error;

verus! {

/// Control type tag: `ACCEPT`.
pub const FSTRM_CONTROL_ACCEPT: u32 = 0x01;
/// Control type tag: `START`.
pub const FSTRM_CONTROL_START: u32 = 0x02;
/// Control type tag: `STOP`.
pub const FSTRM_CONTROL_STOP: u32 = 0x03;
/// Control type tag: `READY`.
pub const FSTRM_CONTROL_READY: u32 = 0x04;
/// Control type tag: `FINISH`.
pub const FSTRM_CONTROL_FINISH: u32 = 0x05;

/// Control field tag: `CONTENT_TYPE`.
pub const FSTRM_CONTROL_FIELD_CONTENT_TYPE: u32 = 0x01;

/// Largest control-frame body the codec accepts, in bytes.
pub const FRAME_LENGTH_MAX: u32 = 512;
/// Largest `CONTENT_TYPE` field body the codec accepts, in bytes.
pub const FIELD_CONTENT_TYPE_LENGTH_MAX: u32 = 256;

/// Number of bytes in one wire-format length word.
pub const FSTRM_LENGTH_SIZE: u32 = 4;

/// Ghost mirror of a control field: a `CONTENT_TYPE` body, or a tolerated
/// field of an unknown tag whose body was skipped (only its declared length
/// is remembered).
pub enum FieldV {
    ContentType(Seq<u8>),
    Unknown { tag: u32, len: u32 },
}

/// Ghost mirror of a control frame.
pub enum ControlV {
    Accept(Seq<FieldV>),
    Start(Seq<FieldV>),
    Stop,
    Ready(Seq<FieldV>),
    Finish,
}

/// Ghost mirror of a frame: control or data.
pub enum FrameV {
    Control(ControlV),
    Data(Seq<u8>),
}

// ---------------------------------------------------------------------------
// Sizes
// ---------------------------------------------------------------------------

/// Length in bytes of a field's body.
pub open spec fn field_body_len(f: FieldV) -> int {
    match f {
        FieldV::ContentType(s) => s.len() as int,
        FieldV::Unknown { tag: _, len } => len as int,
    }
}

/// Encoded size of a field: tag word, length word, body.
pub open spec fn field_size(f: FieldV) -> int {
    8 + field_body_len(f)
}

/// Encoded size of a field list.
pub open spec fn fields_size(fs: Seq<FieldV>) -> int
    decreases fs.len(),
{
    if fs.len() == 0 {
        0
    } else {
        field_size(fs[0]) + fields_size(fs.skip(1))
    }
}

/// The field list a control frame carries (empty for `STOP` and `FINISH`).
pub open spec fn control_fields(c: ControlV) -> Seq<FieldV> {
    match c {
        ControlV::Accept(fs) => fs,
        ControlV::Start(fs) => fs,
        ControlV::Ready(fs) => fs,
        ControlV::Stop => Seq::empty(),
        ControlV::Finish => Seq::empty(),
    }
}

/// The 32-bit type tag of a control frame.
pub open spec fn control_tag(c: ControlV) -> u32 {
    match c {
        ControlV::Accept(_) => FSTRM_CONTROL_ACCEPT,
        ControlV::Start(_) => FSTRM_CONTROL_START,
        ControlV::Stop => FSTRM_CONTROL_STOP,
        ControlV::Ready(_) => FSTRM_CONTROL_READY,
        ControlV::Finish => FSTRM_CONTROL_FINISH,
    }
}

/// Size of a control frame's body: the type word plus its fields.
pub open spec fn control_body_size(c: ControlV) -> int {
    4 + fields_size(control_fields(c))
}

/// Size of a control frame past the escape word: the body-length word plus
/// the body.
pub open spec fn control_size(c: ControlV) -> int {
    4 + control_body_size(c)
}

/// Full on-wire size of a frame, header words included.
pub open spec fn frame_size(f: FrameV) -> int {
    match f {
        FrameV::Data(p) => 4 + p.len() as int,
        FrameV::Control(c) => 4 + control_size(c),
    }
}

// ---------------------------------------------------------------------------
// Well-formedness: the frames the encoder is defined on
// ---------------------------------------------------------------------------

/// A field the encoder can reproduce: a `CONTENT_TYPE` body within its cap.
pub open spec fn field_wf(f: FieldV) -> bool {
    match f {
        FieldV::ContentType(s) => s.len() <= FIELD_CONTENT_TYPE_LENGTH_MAX,
        FieldV::Unknown { .. } => false,
    }
}

/// Every field of the list is well formed.
pub open spec fn fields_wf(fs: Seq<FieldV>) -> bool {
    forall|i: int| 0 <= i < fs.len() ==> field_wf(#[trigger] fs[i])
}

/// A control frame the encoder is defined on: well-formed fields, body
/// within the global cap, and at most one field on `START`.
pub open spec fn control_wf(c: ControlV) -> bool {
    &&& fields_wf(control_fields(c))
    &&& control_body_size(c) <= FRAME_LENGTH_MAX
    &&& (c is Start ==> control_fields(c).len() <= 1)
}

/// A frame the encoder is defined on. Zero-length data frames are excluded:
/// on the wire they would collide with the control-frame escape.
pub open spec fn frame_wf(f: FrameV) -> bool {
    match f {
        FrameV::Data(p) => 0 < p.len() <= u32::MAX,
        FrameV::Control(c) => control_wf(c),
    }
}

// ---------------------------------------------------------------------------
// Encoding
// ---------------------------------------------------------------------------

/// The four big-endian bytes of a 32-bit value.
pub open spec fn enc_u32(v: u32) -> Seq<u8> {
    seq![(v >> 24) as u8, (v >> 16) as u8, (v >> 8) as u8, v as u8]
}

/// Encoding of one field: tag word, length word, body.
pub open spec fn enc_field(f: FieldV) -> Seq<u8> {
    match f {
        FieldV::ContentType(s) => enc_u32(FSTRM_CONTROL_FIELD_CONTENT_TYPE) + enc_u32(
            s.len() as u32,
        ) + s,
        FieldV::Unknown { tag, len } => enc_u32(tag) + enc_u32(len),
    }
}

/// Encoding of a field list, in order.
pub open spec fn enc_fields(fs: Seq<FieldV>) -> Seq<u8>
    decreases fs.len(),
{
    if fs.len() == 0 {
        Seq::empty()
    } else {
        enc_field(fs[0]) + enc_fields(fs.skip(1))
    }
}

/// Encoding of a control frame past the escape word: body length, type tag,
/// fields.
pub open spec fn enc_control(c: ControlV) -> Seq<u8> {
    enc_u32(control_body_size(c) as u32) + enc_u32(control_tag(c)) + enc_fields(control_fields(c))
}

/// Encoding of a frame. A data frame is its payload length followed by the
/// payload; a control frame is the zero escape word followed by the control
/// encoding.
pub open spec fn enc_frame(f: FrameV) -> Seq<u8> {
    match f {
        FrameV::Data(p) => enc_u32(p.len() as u32) + p,
        FrameV::Control(c) => enc_u32(0) + enc_control(c),
    }
}

/// Encoding of a frame sequence: the concatenation of the frame encodings.
pub open spec fn enc_frames(fs: Seq<FrameV>) -> Seq<u8>
    decreases fs.len(),
{
    if fs.len() == 0 {
        Seq::empty()
    } else {
        enc_frame(fs[0]) + enc_frames(fs.skip(1))
    }
}

// ---------------------------------------------------------------------------
// Decoding
// ---------------------------------------------------------------------------

/// The 32-bit value of four big-endian bytes.
pub open spec fn u32_of_be(b: Seq<u8>) -> u32
    recommends
        b.len() == 4,
{
    ((b[0] as u32) << 24) | ((b[1] as u32) << 16) | ((b[2] as u32) << 8) | (b[3] as u32)
}

/// Decoding of one field from the remainder of a control body. On success
/// the returned size is the field's declared encoded size `8 + len`, which
/// for an unknown field may exceed the bytes present; callers check it
/// against the remaining body before moving past the field.
pub open spec fn dec_field(b: Seq<u8>) -> Result<(FieldV, int), Error> {
    if b.len() < 8 {
        Err(Error::FrameFormat)
    } else {
        let tag = u32_of_be(b.take(4));
        let len = u32_of_be(b.subrange(4, 8));
        if tag == FSTRM_CONTROL_FIELD_CONTENT_TYPE {
            if len > FIELD_CONTENT_TYPE_LENGTH_MAX {
                Err(Error::FrameFormat)
            } else if b.len() < 8 + len {
                Err(Error::FrameFormat)
            } else {
                Ok((FieldV::ContentType(b.subrange(8, 8 + len as int)), 8 + len as int))
            }
        } else {
            Ok((FieldV::Unknown { tag, len }, 8 + len as int))
        }
    }
}

/// Decoding of a field list that must fill `b` exactly.
pub open spec fn dec_fields(b: Seq<u8>) -> Result<Seq<FieldV>, Error>
    decreases b.len(),
{
    if b.len() == 0 {
        Ok(Seq::empty())
    } else {
        match dec_field(b) {
            Err(e) => Err(e),
            Ok((f, s)) => if s > b.len() {
                Err(Error::FrameFormat)
            } else {
                match dec_fields(b.skip(s)) {
                    Err(e) => Err(e),
                    Ok(fs) => Ok(seq![f] + fs),
                }
            },
        }
    }
}

/// Decoding of a control frame from its full body (type word included).
pub open spec fn dec_control_body(b: Seq<u8>) -> Result<ControlV, Error> {
    if b.len() < 4 {
        Err(Error::FrameFormat)
    } else {
        let tag = u32_of_be(b.take(4));
        let r = b.skip(4);
        if tag == FSTRM_CONTROL_STOP {
            if r.len() == 0 {
                Ok(ControlV::Stop)
            } else {
                Err(Error::FrameFormat)
            }
        } else if tag == FSTRM_CONTROL_FINISH {
            if r.len() == 0 {
                Ok(ControlV::Finish)
            } else {
                Err(Error::FrameFormat)
            }
        } else if tag == FSTRM_CONTROL_START {
            if r.len() == 0 {
                Ok(ControlV::Start(Seq::empty()))
            } else {
                match dec_field(r) {
                    Err(e) => Err(e),
                    Ok((f, s)) => if s > r.len() {
                        Err(Error::FrameFormat)
                    } else {
                        Ok(ControlV::Start(seq![f]))
                    },
                }
            }
        } else if tag == FSTRM_CONTROL_ACCEPT || tag == FSTRM_CONTROL_READY {
            match dec_fields(r) {
                Err(e) => Err(e),
                Ok(fs) => if tag == FSTRM_CONTROL_ACCEPT {
                    Ok(ControlV::Accept(fs))
                } else {
                    Ok(ControlV::Ready(fs))
                },
            }
        } else {
            Err(Error::FrameFormat)
        }
    }
}

/// Decoding of a control frame from the stream, after the escape word: the
/// body length is read and bounds-checked, the declared body is taken from
/// the stream whole, and the body is decoded. The second component is the
/// number of stream bytes consumed; on a format error the declared body is
/// still consumed (bounded by the end of the stream), so the stream stays
/// byte-aligned.
pub open spec fn dec_control(b: Seq<u8>) -> (Result<ControlV, Error>, int) {
    if b.len() < 4 {
        (Err(Error::Truncated), 0)
    } else {
        let len = u32_of_be(b.take(4));
        if len > FRAME_LENGTH_MAX || len < 4 {
            if len <= b.len() - 4 {
                (Err(Error::FrameFormat), 4 + len as int)
            } else {
                (Err(Error::FrameFormat), b.len() as int)
            }
        } else if b.len() < 4 + len {
            (Err(Error::Truncated), 4)
        } else {
            (dec_control_body(b.subrange(4, 4 + len as int)), 4 + len as int)
        }
    }
}

/// Decoding of one frame from the stream: a non-zero header word is a data
/// frame's payload length; a zero header escapes to a control frame.
pub open spec fn dec_frame(b: Seq<u8>) -> (Result<FrameV, Error>, int) {
    if b.len() < 4 {
        (Err(Error::Truncated), 0)
    } else {
        let h = u32_of_be(b.take(4));
        if h != 0 {
            if b.len() < 4 + h {
                (Err(Error::Truncated), 4)
            } else {
                (Ok(FrameV::Data(b.subrange(4, 4 + h as int))), 4 + h as int)
            }
        } else {
            let r = dec_control(b.skip(4));
            (
                match r.0 {
                    Ok(c) => Ok(FrameV::Control(c)),
                    Err(e) => Err(e),
                },
                4 + r.1,
            )
        }
    }
}

/// Decoding of a whole stream as a frame sequence, until its end.
pub open spec fn dec_frames(b: Seq<u8>) -> Result<Seq<FrameV>, Error>
    decreases b.len(),
    via dec_frames_decreases
{
    if b.len() == 0 {
        Ok(Seq::empty())
    } else {
        let r = dec_frame(b);
        match r.0 {
            Err(e) => Err(e),
            Ok(f) => match dec_frames(b.skip(r.1)) {
                Err(e) => Err(e),
                Ok(fs) => Ok(seq![f] + fs),
            },
        }
    }
}

/// A successful frame decode consumes at least its header word and no more
/// than the stream holds.
pub proof fn lemma_dec_frame_consumed(b: Seq<u8>)
    ensures
        dec_frame(b).0 is Ok ==> 4 <= dec_frame(b).1 <= b.len(),
{
    if b.len() >= 4 {
        let h = u32_of_be(b.take(4));
        if h == 0 {
            let t = b.skip(4);
            if t.len() >= 4 {
                let len = u32_of_be(t.take(4));
                if 4 <= len <= FRAME_LENGTH_MAX && t.len() >= 4 + len {
                    assert(dec_control(t).1 == 4 + len as int);
                }
            }
        }
    }
}

#[via_fn]
proof fn dec_frames_decreases(b: Seq<u8>) {
    lemma_dec_frame_consumed(b);
}

// ---------------------------------------------------------------------------
// Laws
// ---------------------------------------------------------------------------

/// Reading four big-endian bytes gives back the value they encode.
pub proof fn lemma_u32_round_trip(v: u32)
    ensures
        u32_of_be(enc_u32(v)) == v,
{
    let b = enc_u32(v);
    assert(b[0] == (v >> 24) as u8);
    assert(b[1] == (v >> 16) as u8);
    assert(b[2] == (v >> 8) as u8);
    assert(b[3] == v as u8);
    assert((((v >> 24) as u8 as u32) << 24) | (((v >> 16) as u8 as u32) << 16) | (((v
        >> 8) as u8 as u32) << 8) | (v as u8 as u32) == v) by (bit_vector);
}

/// Field lists have nonnegative size, each field taking at least its two
/// header words.
pub proof fn lemma_fields_size_nonneg(fs: Seq<FieldV>)
    ensures
        fields_size(fs) >= 0,
        fs.len() > 0 ==> fields_size(fs) >= 8,
    decreases fs.len(),
{
    if fs.len() > 0 {
        lemma_fields_size_nonneg(fs.skip(1));
    }
}

/// The size of a field list splits at any point.
pub proof fn lemma_fields_size_split(fs: Seq<FieldV>, i: int)
    requires
        0 <= i <= fs.len(),
    ensures
        fields_size(fs) == fields_size(fs.take(i)) + fields_size(fs.skip(i)),
    decreases i,
{
    if i == 0 {
        assert(fs.take(0) =~= Seq::<FieldV>::empty());
        assert(fs.skip(0) =~= fs);
    } else {
        assert(fs.take(i)[0] == fs[0]);
        assert(fs.take(i).skip(1) =~= fs.skip(1).take(i - 1));
        assert(fs.skip(1).skip(i - 1) =~= fs.skip(i));
        lemma_fields_size_split(fs.skip(1), i - 1);
    }
}

/// A one-field list has the size and encoding of its field.
pub proof fn lemma_fields_singleton(f: FieldV)
    ensures
        fields_size(seq![f]) == field_size(f),
        enc_fields(seq![f]) == enc_field(f),
{
    assert(seq![f].len() == 1);
    assert(seq![f][0] == f);
    assert(seq![f].skip(1) =~= Seq::<FieldV>::empty());
    assert(fields_size(Seq::<FieldV>::empty()) == 0);
    assert(fields_size(seq![f]) == field_size(seq![f][0]) + fields_size(seq![f].skip(1)));
    assert(enc_fields(Seq::<FieldV>::empty()) == Seq::<u8>::empty());
    assert(enc_fields(seq![f]) == enc_field(seq![f][0]) + enc_fields(seq![f].skip(1)));
    assert(enc_field(f) + Seq::<u8>::empty() =~= enc_field(f));
}

/// The encoding of a field list splits at any point.
pub proof fn lemma_enc_fields_split(fs: Seq<FieldV>, i: int)
    requires
        0 <= i <= fs.len(),
    ensures
        enc_fields(fs) == enc_fields(fs.take(i)) + enc_fields(fs.skip(i)),
    decreases i,
{
    if i == 0 {
        assert(fs.take(0) =~= Seq::<FieldV>::empty());
        assert(fs.skip(0) =~= fs);
        assert(Seq::<u8>::empty() + enc_fields(fs) =~= enc_fields(fs));
    } else {
        assert(fs.take(i)[0] == fs[0]);
        assert(fs.take(i).skip(1) =~= fs.skip(1).take(i - 1));
        assert(fs.skip(1).skip(i - 1) =~= fs.skip(i));
        lemma_enc_fields_split(fs.skip(1), i - 1);
        assert(enc_field(fs[0]) + (enc_fields(fs.skip(1).take(i - 1)) + enc_fields(fs.skip(i)))
            =~= (enc_field(fs[0]) + enc_fields(fs.take(i).skip(1))) + enc_fields(fs.skip(i)));
    }
}

/// A well-formed field encodes to exactly its declared size.
pub proof fn lemma_enc_field_len(f: FieldV)
    requires
        field_wf(f),
    ensures
        enc_field(f).len() == field_size(f),
{
}

/// A well-formed field list encodes to exactly its declared size.
pub proof fn lemma_enc_fields_len(fs: Seq<FieldV>)
    requires
        fields_wf(fs),
    ensures
        enc_fields(fs).len() == fields_size(fs),
    decreases fs.len(),
{
    if fs.len() > 0 {
        assert(fields_wf(fs.skip(1))) by {
            assert(forall|i: int|
                0 <= i < fs.skip(1).len() ==> #[trigger] fs.skip(1)[i] == fs[i + 1]);
        }
        lemma_enc_fields_len(fs.skip(1));
    }
}

/// A well-formed frame encodes to exactly its declared size.
pub proof fn lemma_enc_frame_len(f: FrameV)
    requires
        frame_wf(f),
    ensures
        enc_frame(f).len() == frame_size(f),
{
    match f {
        FrameV::Data(_) => {},
        FrameV::Control(c) => {
            lemma_enc_fields_len(control_fields(c));
        },
    }
}

/// Encoded size of a control frame: the escape and body-length words, the
/// type word, and two header words plus the body for each field. This is the
/// normative size formula.
pub proof fn lemma_control_encoded_size(c: ControlV)
    requires
        control_wf(c),
    ensures
        enc_frame(FrameV::Control(c)).len() == 4 + control_size(c),
        control_size(c) == 8 + fields_size(control_fields(c)),
{
    lemma_enc_frame_len(FrameV::Control(c));
}

/// Decoding an encoded well-formed field from the front of a buffer gives
/// the field back, together with its size.
proof fn lemma_dec_field_enc(f: FieldV, rest: Seq<u8>)
    requires
        field_wf(f),
    ensures
        dec_field(enc_field(f) + rest) == Ok::<(FieldV, int), Error>((f, field_size(f))),
{
    let s = f->ContentType_0;
    let b = enc_field(f) + rest;
    assert(b.take(4) =~= enc_u32(FSTRM_CONTROL_FIELD_CONTENT_TYPE));
    assert(b.subrange(4, 8) =~= enc_u32(s.len() as u32));
    lemma_u32_round_trip(FSTRM_CONTROL_FIELD_CONTENT_TYPE);
    lemma_u32_round_trip(s.len() as u32);
    let len = u32_of_be(b.subrange(4, 8));
    assert(len == s.len());
    assert(b.subrange(8, 8 + len as int) =~= s);
}

/// Decoding an encoded well-formed field list gives the list back.
#[verifier::spinoff_prover]
#[verifier::rlimit(100)]
proof fn lemma_dec_fields_enc(fs: Seq<FieldV>)
    requires
        fields_wf(fs),
    ensures
        dec_fields(enc_fields(fs)) == Ok::<Seq<FieldV>, Error>(fs),
    decreases fs.len(),
{
    if fs.len() == 0 {
        assert(enc_fields(fs).len() == 0);
        assert(dec_fields(enc_fields(fs)) == Ok::<Seq<FieldV>, Error>(Seq::empty()));
        assert(fs =~= Seq::<FieldV>::empty());
    } else {
        let f = fs[0];
        let tail = fs.skip(1);
        assert(fields_wf(tail)) by {
            assert(forall|i: int| 0 <= i < tail.len() ==> #[trigger] tail[i] == fs[i + 1]);
        }
        let b = enc_fields(fs);
        lemma_dec_field_enc(f, enc_fields(tail));
        lemma_enc_field_len(f);
        lemma_enc_fields_len(tail);
        lemma_fields_size_nonneg(tail);
        assert(b.len() == field_size(f) + fields_size(tail));
        assert(b.skip(field_size(f)) =~= enc_fields(tail));
        lemma_dec_fields_enc(tail);
        assert(seq![f] + tail =~= fs);
    }
}

/// Decoding an encoded well-formed control body gives the control frame
/// back.
proof fn lemma_dec_control_body_enc(c: ControlV)
    requires
        control_wf(c),
    ensures
        dec_control_body(enc_u32(control_tag(c)) + enc_fields(control_fields(c))) == Ok::<
            ControlV,
            Error,
        >(c),
{
    let fs = control_fields(c);
    let b = enc_u32(control_tag(c)) + enc_fields(fs);
    assert(b.take(4) =~= enc_u32(control_tag(c)));
    lemma_u32_round_trip(control_tag(c));
    assert(b.skip(4) =~= enc_fields(fs));
    lemma_enc_fields_len(fs);
    match c {
        ControlV::Stop => {},
        ControlV::Finish => {},
        ControlV::Start(_) => {
            if fs.len() > 0 {
                assert(fs.len() == 1);
                assert(field_wf(fs[0]));
                lemma_dec_field_enc(fs[0], Seq::empty());
                assert(enc_fields(fs) =~= enc_field(fs[0]) + enc_fields(fs.skip(1)));
                assert(fs.skip(1).len() == 0);
                assert(enc_fields(fs.skip(1)) =~= Seq::<u8>::empty());
                assert(enc_field(fs[0]) + Seq::<u8>::empty() =~= enc_field(fs[0]));
                assert(enc_fields(fs) =~= enc_field(fs[0]) + Seq::<u8>::empty());
                lemma_enc_field_len(fs[0]);
                lemma_fields_size_nonneg(fs.skip(1));
                assert(seq![fs[0]] =~= fs);
            } else {
                assert(enc_fields(fs).len() == 0);
                assert(fs =~= Seq::<FieldV>::empty());
            }
        },
        ControlV::Accept(_) => {
            lemma_dec_fields_enc(fs);
        },
        ControlV::Ready(_) => {
            lemma_dec_fields_enc(fs);
        },
    }
}

/// Decoding an encoded well-formed control frame from the front of a stream
/// gives the control frame back and consumes exactly its size.
proof fn lemma_dec_control_enc(c: ControlV, rest: Seq<u8>)
    requires
        control_wf(c),
    ensures
        dec_control(enc_control(c) + rest) == (Ok::<ControlV, Error>(c), control_size(c)),
{
    let body = enc_u32(control_tag(c)) + enc_fields(control_fields(c));
    let b = enc_control(c) + rest;
    lemma_fields_size_nonneg(control_fields(c));
    lemma_enc_fields_len(control_fields(c));
    let bs = control_body_size(c);
    assert(b.take(4) =~= enc_u32(bs as u32));
    lemma_u32_round_trip(bs as u32);
    let len = u32_of_be(b.take(4));
    assert(len == bs);
    assert(body.len() == bs);
    assert(b.len() == 4 + bs + rest.len());
    assert(b.subrange(4, 4 + len as int) =~= body);
    lemma_dec_control_body_enc(c);
}

/// Round trip for one frame with arbitrary following bytes: decoding the
/// encoding of a well-formed frame gives the frame back and consumes
/// exactly its size.
pub proof fn lemma_dec_frame_enc(f: FrameV, rest: Seq<u8>)
    requires
        frame_wf(f),
    ensures
        dec_frame(enc_frame(f) + rest) == (Ok::<FrameV, Error>(f), frame_size(f)),
{
    let b = enc_frame(f) + rest;
    match f {
        FrameV::Data(p) => {
            assert(b.take(4) =~= enc_u32(p.len() as u32));
            lemma_u32_round_trip(p.len() as u32);
            let h = u32_of_be(b.take(4));
            assert(h == p.len());
            assert(b.subrange(4, 4 + h as int) =~= p);
        },
        FrameV::Control(c) => {
            assert(b.take(4) =~= enc_u32(0));
            lemma_u32_round_trip(0);
            assert(b.skip(4) =~= enc_control(c) + rest);
            lemma_dec_control_enc(c, rest);
        },
    }
}

/// Round trip for one frame: for every well-formed frame, decoding the
/// encoding gives the frame back.
pub proof fn lemma_frame_round_trip(f: FrameV)
    requires
        frame_wf(f),
    ensures
        dec_frame(enc_frame(f)) == (Ok::<FrameV, Error>(f), frame_size(f)),
{
    assert(enc_frame(f) + Seq::<u8>::empty() =~= enc_frame(f));
    lemma_dec_frame_enc(f, Seq::empty());
}

/// Round trip for a frame sequence: encoding a sequence of well-formed
/// frames back to back and decoding the resulting stream gives the sequence
/// back.
pub proof fn lemma_frames_round_trip(fs: Seq<FrameV>)
    requires
        forall|i: int| 0 <= i < fs.len() ==> frame_wf(#[trigger] fs[i]),
    ensures
        dec_frames(enc_frames(fs)) == Ok::<Seq<FrameV>, Error>(fs),
    decreases fs.len(),
{
    if fs.len() == 0 {
        assert(fs =~= Seq::<FrameV>::empty());
    } else {
        let f = fs[0];
        let tail = fs.skip(1);
        assert(forall|i: int| 0 <= i < tail.len() ==> #[trigger] tail[i] == fs[i + 1]);
        let b = enc_frames(fs);
        lemma_dec_frame_enc(f, enc_frames(tail));
        lemma_enc_frame_len(f);
        assert(b.skip(frame_size(f)) =~= enc_frames(tail));
        lemma_frames_round_trip(tail);
        assert(seq![f] + tail =~= fs);
    }
}

/// Every `CONTENT_TYPE` field of the list has a body within the per-field
/// cap.
pub open spec fn cts_bounded(fs: Seq<FieldV>) -> bool {
    forall|i: int|
        0 <= i < fs.len() ==> (#[trigger] fs[i] matches FieldV::ContentType(s) ==> s.len()
            <= FIELD_CONTENT_TYPE_LENGTH_MAX)
}

/// A decoded field list fills its buffer exactly, and its `CONTENT_TYPE`
/// bodies are within the per-field cap.
pub proof fn lemma_dec_fields_size(b: Seq<u8>)
    ensures
        dec_fields(b) matches Ok(fs) ==> fields_size(fs) == b.len() && cts_bounded(fs),
    decreases b.len(),
{
    if b.len() > 0 {
        match dec_field(b) {
            Ok((f, s)) => {
                if s <= b.len() {
                    lemma_dec_fields_size(b.skip(s));
                    match dec_fields(b.skip(s)) {
                        Ok(fs2) => {
                            let fs = seq![f] + fs2;
                            assert(fs[0] == f);
                            assert(fs.skip(1) =~= fs2);
                            assert(field_size(f) == s);
                            assert forall|i: int|
                                0 <= i < fs.len() implies (#[trigger] fs[i] matches FieldV::ContentType(
                                cb,
                            ) ==> cb.len() <= FIELD_CONTENT_TYPE_LENGTH_MAX) by {
                                if i > 0 {
                                    assert(fs[i] == fs2[i - 1]);
                                }
                            }
                        },
                        _ => {},
                    }
                }
            },
            _ => {},
        }
    }
}

/// A decoded control body fits its buffer: the fields take no more than
/// the body past the type word, their `CONTENT_TYPE` bodies are within the
/// per-field cap, and `START` carries at most one field.
pub proof fn lemma_dec_control_body_sizes(b: Seq<u8>)
    ensures
        dec_control_body(b) matches Ok(cv) ==> {
            &&& fields_size(control_fields(cv)) <= b.len() - 4
            &&& cts_bounded(control_fields(cv))
            &&& (cv is Start ==> control_fields(cv).len() <= 1)
        },
{
    match dec_control_body(b) {
        Ok(_) => {
            let tag = u32_of_be(b.take(4));
            let r = b.skip(4);
            if tag == FSTRM_CONTROL_START && r.len() > 0 {
                let (f, s) = dec_field(r)->Ok_0;
                lemma_fields_singleton(f);
                assert(field_size(f) == s);
            } else if tag == FSTRM_CONTROL_ACCEPT || tag == FSTRM_CONTROL_READY {
                lemma_dec_fields_size(r);
            }
        },
        _ => {},
    }
}

/// A control frame decoded from a stream keeps every size within the
/// global cap: its fields take at most the largest body less the type
/// word, and its `CONTENT_TYPE` bodies are within the per-field cap.
pub proof fn lemma_dec_frame_control_sizes(b: Seq<u8>)
    ensures
        match dec_frame(b).0 {
            Ok(fv) => match fv {
                FrameV::Control(cv) => {
                    &&& fields_size(control_fields(cv)) <= FRAME_LENGTH_MAX - 4
                    &&& cts_bounded(control_fields(cv))
                    &&& (cv is Start ==> control_fields(cv).len() <= 1)
                },
                _ => true,
            },
            _ => true,
        },
{
    if b.len() >= 4 && u32_of_be(b.take(4)) == 0 {
        let t = b.skip(4);
        if t.len() >= 4 {
            let len = u32_of_be(t.take(4));
            if 4 <= len <= FRAME_LENGTH_MAX && t.len() >= 4 + len {
                lemma_dec_control_body_sizes(t.subrange(4, 4 + len as int));
            }
        }
    }
}

/// A data frame whose declared payload length exceeds the bytes available
/// decodes to `Truncated`.
pub proof fn lemma_truncated_data(b: Seq<u8>)
    requires
        b.len() >= 4,
        u32_of_be(b.take(4)) != 0,
        b.len() < 4 + u32_of_be(b.take(4)),
    ensures
        dec_frame(b).0 == Err::<FrameV, Error>(Error::Truncated),
{
}

/// A control body whose declared length is over the global cap or under the
/// size of the type word decodes to `FrameFormat`.
pub proof fn lemma_control_length_format(b: Seq<u8>)
    requires
        b.len() >= 8,
        u32_of_be(b.take(4)) == 0,
        u32_of_be(b.subrange(4, 8)) > FRAME_LENGTH_MAX || u32_of_be(b.subrange(4, 8)) < 4,
    ensures
        dec_frame(b).0 == Err::<FrameV, Error>(Error::FrameFormat),
{
    assert(b.skip(4).take(4) =~= b.subrange(4, 8));
}

} // verus!
