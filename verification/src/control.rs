//! Control frames and their typed fields: content types, field lists, the
//! control-frame variants, their sizes, and their encoding and decoding.

use vstd::prelude::*;
use vstd::pervasive::cloned;
use crate::Error;
use crate::FstrmLength;
use crate::reader::Source;
use crate::wire::{
    enc_u32, enc_field, enc_fields, enc_control, control_tag, control_fields,
    field_size, field_body_len, fields_size, control_body_size, control_size,
    field_wf, fields_wf, control_wf, FieldV, ControlV, u32_of_be,
    dec_field, dec_fields, dec_control_body, dec_control,
    FRAME_LENGTH_MAX, FIELD_CONTENT_TYPE_LENGTH_MAX,
    lemma_fields_singleton, lemma_fields_size_split, lemma_fields_size_nonneg,
    lemma_enc_fields_split,
    FSTRM_CONTROL_ACCEPT, FSTRM_CONTROL_START, FSTRM_CONTROL_STOP,
    FSTRM_CONTROL_READY, FSTRM_CONTROL_FINISH, FSTRM_CONTROL_FIELD_CONTENT_TYPE,
    FSTRM_LENGTH_SIZE,
};

verus! {

/// An opaque content-type label, stored as the exact bytes that appear on
/// the wire.
#[derive(Debug, Clone, PartialEq, Eq)]
pub struct ContentType {
    val: Vec<u8>,
}

impl View for ContentType {
    type V = Seq<u8>;

    closed spec fn view(&self) -> Seq<u8> {
        self.val@
    }
}

impl ContentType {
    /// The content-type bytes.
    pub fn ref_body(&self) -> (r: &[u8])
        ensures
            r@ == self@,
    {
        self.val.as_slice()
    }

    /// The content-type bytes, owned.
    pub fn into_inner(self) -> (r: Vec<u8>)
        ensures
            r@ == self@,
    {
        self.val
    }

    /// The length of the content type in bytes.
    pub fn len(&self) -> (r: FstrmLength)
        requires
            self@.len() <= u32::MAX,
        ensures
            r == self@.len(),
    {
        self.val.len() as u32
    }

    /// A content type over the given bytes.
    pub fn new(val: Vec<u8>) -> (r: Self)
        ensures
            r@ == val@,
    {
        Self { val }
    }

    /// A copy with the same bytes.
    pub(crate) fn duplicate(&self) -> (r: Self)
        ensures
            r@ == self@,
    {
        Self { val: clone_bytes(&self.val) }
    }
}

/// Appends the four big-endian bytes of `v`.
pub(crate) fn put_u32(out: &mut Vec<u8>, v: u32)
    ensures
        final(out)@ == old(out)@ + enc_u32(v),
{
    out.push(#[verifier::truncate] ((v >> 24) as u8));
    out.push(#[verifier::truncate] ((v >> 16) as u8));
    out.push(#[verifier::truncate] ((v >> 8) as u8));
    out.push(#[verifier::truncate] (v as u8));
    proof {
        assert(final(out)@ =~= old(out)@ + enc_u32(v));
    }
}

/// Appends all bytes of `src`.
pub(crate) fn push_bytes(out: &mut Vec<u8>, src: &Vec<u8>)
    ensures
        final(out)@ == old(out)@ + src@,
{
    let mut i: usize = 0;
    while i < src.len()
        invariant
            i <= src.len(),
            out@ == old(out)@ + src@.take(i as int),
        decreases src.len() - i,
    {
        out.push(src[i]);
        proof {
            assert(old(out)@ + src@.take(i as int) + seq![src@[i as int]] =~= old(out)@
                + src@.take(i + 1));
        }
        i = i + 1;
    }
    proof {
        assert(old(out)@ + src@.take(src@.len() as int) =~= old(out)@ + src@);
    }
}

/// A copy of the given bytes.
pub(crate) fn clone_bytes(v: &Vec<u8>) -> (r: Vec<u8>)
    ensures
        r@ == v@,
{
    let r = v.clone();
    proof {
        assert forall|i: int| 0 <= i < v@.len() implies r@[i] == v@[i] by {
            assert(cloned::<u8>(v@[i], r@[i]));
        }
        assert(r@ =~= v@);
    }
    r
}

/// A control field: a `CONTENT_TYPE` body, or a tolerated field of an
/// unknown tag whose body was skipped during decoding.
#[derive(Debug, Clone, PartialEq, Eq)]
pub enum Field {
    ContentType(ContentType),
    Unknown { tag: u32, len: u32 },
}

impl View for Field {
    type V = FieldV;

    open spec fn view(&self) -> FieldV {
        match self {
            Field::ContentType(ct) => FieldV::ContentType(ct@),
            Field::Unknown { tag, len } => FieldV::Unknown { tag: *tag, len: *len },
        }
    }
}

impl Field {
    /// Encoded size of the field: tag word, length word, body.
    pub fn size(&self) -> (r: FstrmLength)
        requires
            field_size(self@) <= u32::MAX,
        ensures
            r == field_size(self@),
    {
        FSTRM_LENGTH_SIZE + FSTRM_LENGTH_SIZE + self.body_size()
    }

    /// Length of the field's body in bytes.
    pub fn body_size(&self) -> (r: FstrmLength)
        requires
            field_body_len(self@) <= u32::MAX,
        ensures
            r == field_body_len(self@),
    {
        match self {
            Field::ContentType(content_type) => content_type.len(),
            Field::Unknown { tag: _, len } => *len,
        }
    }

    /// The field's body bytes. An unknown field's body was skipped on
    /// decode, so only a `CONTENT_TYPE` field has one.
    pub fn ref_body(&self) -> (r: &[u8])
        requires
            self@ is ContentType,
        ensures
            r@ == self@->ContentType_0,
    {
        match self {
            Field::ContentType(content_type) => content_type.ref_body(),
            Field::Unknown { .. } => {
                proof {
                    assert(false);
                }
                vstd::pervasive::unreached()
            },
        }
    }

    /// Reads one field: tag word, length word, then either a
    /// `CONTENT_TYPE` body within its cap, or a skipped unknown body. The
    /// source is the remainder of a control body, so every failure is a
    /// format error.
    pub fn decode(src: &mut Source) -> (r: Result<Field, Error>)
        requires
            old(src).wf(),
        ensures
            final(src).wf(),
            match dec_field(old(src)@) {
                Ok((fv, s)) => {
                    &&& r matches Ok(f) && f@ == fv
                    &&& final(src)@ == if s <= old(src)@.len() {
                        old(src)@.skip(s)
                    } else {
                        Seq::<u8>::empty()
                    }
                },
                Err(e) => r matches Err(e2) && e2 == e,
            },
    {
        let ghost b = old(src)@;
        let tag = match src.read_frame_value() {
            Ok(t) => t,
            Err(_) => {
                return Err(Error::FrameFormat);
            },
        };
        let len = match src.read_frame_value() {
            Ok(l) => l,
            Err(_) => {
                return Err(Error::FrameFormat);
            },
        };
        proof {
            assert(b.skip(4).take(4) =~= b.subrange(4, 8));
        }
        if tag == FSTRM_CONTROL_FIELD_CONTENT_TYPE {
            if len > FIELD_CONTENT_TYPE_LENGTH_MAX {
                return Err(Error::FrameFormat);
            }
            match src.read_frame_data_for_len(len) {
                Ok(data) => {
                    proof {
                        assert(b.skip(4).skip(4) =~= b.skip(8));
                        assert(b.skip(8).take(len as int) =~= b.subrange(8, 8 + len as int));
                        assert(b.skip(8).skip(len as int) =~= b.skip(8 + len as int));
                    }
                    Ok(Field::ContentType(ContentType::new(data)))
                },
                Err(_) => Err(Error::FrameFormat),
            }
        } else {
            proof {
                assert(b.skip(4).skip(4) =~= b.skip(8));
            }
            src.consume(len);
            proof {
                if 8 + len as int <= b.len() {
                    assert(b.skip(8).skip(len as int) =~= b.skip(8 + len as int));
                }
            }
            Ok(Field::Unknown { tag, len })
        }
    }

    /// Writes the field as tag word, length word, body.
    pub fn encode(&self, out: &mut Vec<u8>)
        requires
            field_wf(self@),
        ensures
            final(out)@ == old(out)@ + enc_field(self@),
    {
        match self {
            Field::ContentType(content_type) => {
                put_u32(out, FSTRM_CONTROL_FIELD_CONTENT_TYPE);
                put_u32(out, content_type.len());
                push_bytes(out, &content_type.val);
                proof {
                    assert(final(out)@ =~= old(out)@ + enc_field(self@));
                }
            },
            Field::Unknown { .. } => {
                proof {
                    assert(false);
                }
            },
        }
    }
}

/// The ghost field list a sequence of fields stands for.
pub open spec fn fields_view(s: Seq<Field>) -> Seq<FieldV> {
    s.map_values(|f: Field| f@)
}

/// The body a control frame carries: no fields, one field, or a field list.
#[derive(Debug, Clone, PartialEq, Eq)]
pub enum Data {
    Empty,
    Field(Field),
    Fields(Vec<Field>),
}

impl View for Data {
    type V = Seq<FieldV>;

    open spec fn view(&self) -> Seq<FieldV> {
        match self {
            Data::Empty => Seq::empty(),
            Data::Field(f) => seq![f@],
            Data::Fields(fs) => fields_view(fs@),
        }
    }
}

impl Data {
    /// Encoded size of all fields together.
    pub fn size(&self) -> (r: FstrmLength)
        requires
            fields_size(self@) <= u32::MAX,
        ensures
            r == fields_size(self@),
    {
        match self {
            Data::Empty => 0,
            Data::Field(field) => {
                proof {
                    lemma_fields_singleton(field@);
                }
                field.size()
            },
            Data::Fields(fields) => {
                let ghost fv = fields_view(fields@);
                let mut total: u32 = 0;
                let mut i: usize = 0;
                while i < fields.len()
                    invariant
                        i <= fields.len(),
                        fv == fields_view(fields@),
                        fields_size(fv) <= u32::MAX,
                        total == fields_size(fv.take(i as int)),
                    decreases fields.len() - i,
                {
                    proof {
                        lemma_fields_size_split(fv, i as int);
                        lemma_fields_size_split(fv.take(i + 1), i as int);
                        assert(fv.take(i + 1).take(i as int) =~= fv.take(i as int));
                        assert(fv.take(i + 1).skip(i as int) =~= seq![fv[i as int]]);
                        lemma_fields_singleton(fv[i as int]);
                        assert(fv.skip(i as int)[0] == fv[i as int]);
                        assert(fv.skip(i as int).skip(1) =~= fv.skip(i + 1));
                        lemma_fields_size_nonneg(fv.take(i as int));
                        lemma_fields_size_nonneg(fv.skip(i + 1));
                    }
                    let s = fields[i].size();
                    total = total + s;
                    i = i + 1;
                }
                proof {
                    assert(fv.take(fields@.len() as int) =~= fv);
                }
                total
            },
        }
    }

    /// Writes every field, in order.
    pub fn encode(&self, out: &mut Vec<u8>)
        requires
            fields_wf(self@),
        ensures
            final(out)@ == old(out)@ + enc_fields(self@),
    {
        match self {
            Data::Empty => {
                proof {
                    assert(final(out)@ =~= old(out)@ + enc_fields(self@));
                }
            },
            Data::Field(field) => {
                proof {
                    assert(field_wf(self@[0]));
                    lemma_fields_singleton(field@);
                }
                field.encode(out);
            },
            Data::Fields(fields) => {
                let ghost fv = fields_view(fields@);
                let mut i: usize = 0;
                while i < fields.len()
                    invariant
                        i <= fields.len(),
                        fv == fields_view(fields@),
                        fields_wf(fv),
                        out@ == old(out)@ + enc_fields(fv.take(i as int)),
                    decreases fields.len() - i,
                {
                    proof {
                        assert(field_wf(fv[i as int]));
                        lemma_enc_fields_split(fv.take(i + 1), i as int);
                        assert(fv.take(i + 1).take(i as int) =~= fv.take(i as int));
                        assert(fv.take(i + 1).skip(i as int) =~= seq![fv[i as int]]);
                        lemma_fields_singleton(fv[i as int]);
                    }
                    fields[i].encode(out);
                    proof {
                        assert(out@ =~= old(out)@ + enc_fields(fv.take(i + 1)));
                    }
                    i = i + 1;
                }
                proof {
                    assert(fv.take(fields@.len() as int) =~= fv);
                }
            },
        }
    }

    /// The fields, as a list.
    pub fn into_fields(self) -> (r: Vec<Field>)
        ensures
            fields_view(r@) == self@,
    {
        match self {
            Data::Empty => {
                let r = Vec::new();
                proof {
                    assert(fields_view(r@) =~= self@);
                }
                r
            },
            Data::Field(field) => {
                let mut r = Vec::new();
                r.push(field);
                proof {
                    assert(fields_view(r@) =~= self@);
                }
                r
            },
            Data::Fields(fields) => fields,
        }
    }

    /// A body over the given field list: no fields, the single field, or
    /// the list itself.
    pub fn from_fields(fields: Vec<Field>) -> (r: Data)
        ensures
            r@ == fields_view(fields@),
    {
        let ghost orig = fields@;
        let mut fields = fields;
        if fields.len() == 0 {
            let r = Data::Empty;
            proof {
                assert(r@ =~= fields_view(orig));
            }
            r
        } else if fields.len() == 1 {
            let f = fields.pop().unwrap();
            let r = Data::Field(f);
            proof {
                assert(r@ =~= fields_view(orig));
            }
            r
        } else {
            Data::Fields(fields)
        }
    }

    /// A body carrying one `CONTENT_TYPE` field per given content type.
    pub fn from_content_types(content_types: &Vec<ContentType>) -> (r: Data)
        ensures
            r@ == cts_fields_view(content_types@),
    {
        let ghost cv = cts_fields_view(content_types@);
        let mut fields: Vec<Field> = Vec::new();
        let mut i: usize = 0;
        while i < content_types.len()
            invariant
                i <= content_types.len(),
                cv == cts_fields_view(content_types@),
                fields_view(fields@) == cv.take(i as int),
            decreases content_types.len() - i,
        {
            let ct = ContentType { val: clone_bytes(&content_types[i].val) };
            let ghost pre = fields@;
            fields.push(Field::ContentType(ct));
            proof {
                assert(fields@ == pre.push(Field::ContentType(ct)));
                assert(cv.len() == content_types@.len());
                assert(fields_view(pre).len() == pre.len());
                assert(pre.len() == i);
                assert(fields_view(fields@).len() == i + 1);
                assert forall|j: int| 0 <= j < i + 1 implies fields_view(fields@)[j] == cv.take(
                    i + 1,
                )[j] by {
                    assert(fields_view(fields@)[j] == fields@[j]@);
                    if j < i {
                        assert(fields@[j] == pre[j]);
                        assert(fields_view(pre)[j] == pre[j]@);
                        assert(fields_view(pre)[j] == cv.take(i as int)[j]);
                    } else {
                        assert(fields@[j] == Field::ContentType(ct));
                        assert(cv[j] == FieldV::ContentType(content_types@[j]@));
                    }
                }
                assert(fields_view(fields@).len() == i + 1);
                assert(fields_view(fields@) =~= cv.take(i + 1));
            }
            i = i + 1;
        }
        proof {
            assert(cv.take(content_types@.len() as int) =~= cv);
        }
        Data::from_fields(fields)
    }

    /// The sub-body of the `CONTENT_TYPE` fields whose bytes occur in the
    /// given list.
    pub fn filter(&self, content_types: &Vec<ContentType>) -> (r: Data)
        ensures
            r@ == filter_cts(self@, cts_view(content_types@)),
    {
        let ghost allowed = cts_view(content_types@);
        let mut kept: Vec<Field> = Vec::new();
        match self {
            Data::Empty => {},
            Data::Field(field) => {
                if let Field::ContentType(ct) = field {
                    if contains_ct(content_types, ct) {
                        kept.push(Field::ContentType(ContentType { val: clone_bytes(&ct.val) }));
                    }
                }
                proof {
                    assert(seq![field@].len() == 1);
                    assert(seq![field@][0] == field@);
                    assert(seq![field@].skip(1) =~= Seq::<FieldV>::empty());
                    assert(filter_cts(Seq::<FieldV>::empty(), allowed) =~= Seq::<FieldV>::empty());
                    assert(fields_view(kept@) =~= filter_cts(self@, allowed));
                }
            },
            Data::Fields(fields) => {
                let ghost fv = fields_view(fields@);
                let mut i: usize = 0;
                while i < fields.len()
                    invariant
                        i <= fields.len(),
                        fv == fields_view(fields@),
                        allowed == cts_view(content_types@),
                        fields_view(kept@) == filter_cts(fv.take(i as int), allowed),
                    decreases fields.len() - i,
                {
                    proof {
                        lemma_filter_cts_snoc(fv.take(i as int), fv[i as int], allowed);
                        assert(fv.take(i as int).push(fv[i as int]) =~= fv.take(i + 1));
                    }
                    if let Field::ContentType(ct) = &fields[i] {
                        if contains_ct(content_types, ct) {
                            kept.push(Field::ContentType(ContentType { val: clone_bytes(&ct.val) }));
                            proof {
                                assert(fields_view(kept@) =~= filter_cts(fv.take(i + 1), allowed));
                            }
                        }
                    }
                    i = i + 1;
                }
                proof {
                    assert(fv.take(fields@.len() as int) =~= fv);
                }
            },
        }
        Data::from_fields(kept)
    }
}

/// The byte sequences of a content-type list.
pub open spec fn cts_view(s: Seq<ContentType>) -> Seq<Seq<u8>> {
    s.map_values(|c: ContentType| c@)
}

/// The ghost field list of one `CONTENT_TYPE` field per content type.
pub open spec fn cts_fields_view(s: Seq<ContentType>) -> Seq<FieldV> {
    s.map_values(|c: ContentType| FieldV::ContentType(c@))
}

/// Whether a field is a `CONTENT_TYPE` whose bytes occur in `allowed`.
pub open spec fn ct_match(f: FieldV, allowed: Seq<Seq<u8>>) -> bool {
    f matches FieldV::ContentType(s) && allowed.contains(s)
}

/// The sub-list of the `CONTENT_TYPE` fields whose bytes occur in
/// `allowed`, in order.
pub open spec fn filter_cts(fs: Seq<FieldV>, allowed: Seq<Seq<u8>>) -> Seq<FieldV>
    decreases fs.len(),
{
    if fs.len() == 0 {
        Seq::empty()
    } else {
        let rest = filter_cts(fs.skip(1), allowed);
        if ct_match(fs[0], allowed) {
            seq![fs[0]] + rest
        } else {
            rest
        }
    }
}

/// Filtering a list extended by one field keeps the filtered list and
/// appends the field when it matches.
pub proof fn lemma_filter_cts_snoc(fs: Seq<FieldV>, f: FieldV, allowed: Seq<Seq<u8>>)
    ensures
        filter_cts(fs.push(f), allowed) == if ct_match(f, allowed) {
            filter_cts(fs, allowed).push(f)
        } else {
            filter_cts(fs, allowed)
        },
    decreases fs.len(),
{
    if fs.len() == 0 {
        assert(fs.push(f).len() == 1);
        assert(fs.push(f)[0] == f);
        assert(fs.push(f).skip(1) =~= Seq::<FieldV>::empty());
        assert(filter_cts(Seq::<FieldV>::empty(), allowed) =~= Seq::<FieldV>::empty());
        if ct_match(f, allowed) {
            assert(filter_cts(fs.push(f), allowed) == seq![f] + filter_cts(
                Seq::<FieldV>::empty(),
                allowed,
            ));
            assert(seq![f] + Seq::<FieldV>::empty() =~= Seq::<FieldV>::empty().push(f));
            assert(fs =~= Seq::<FieldV>::empty());
        } else {
            assert(fs =~= Seq::<FieldV>::empty());
        }
    } else {
        assert(fs.push(f).skip(1) =~= fs.skip(1).push(f));
        assert(fs.push(f)[0] == fs[0]);
        lemma_filter_cts_snoc(fs.skip(1), f, allowed);
        if ct_match(fs[0], allowed) && ct_match(f, allowed) {
            assert(seq![fs[0]] + filter_cts(fs.skip(1), allowed).push(f) =~= (seq![fs[0]]
                + filter_cts(fs.skip(1), allowed)).push(f));
        }
    }
}

/// Whether two byte vectors hold the same bytes.
pub(crate) fn bytes_eq(a: &Vec<u8>, b: &Vec<u8>) -> (r: bool)
    ensures
        r == (a@ == b@),
{
    if a.len() != b.len() {
        return false;
    }
    let mut i: usize = 0;
    while i < a.len()
        invariant
            i <= a.len(),
            a@.len() == b@.len(),
            forall|j: int| 0 <= j < i ==> a@[j] == b@[j],
        decreases a.len() - i,
    {
        if a[i] != b[i] {
            return false;
        }
        i = i + 1;
    }
    proof {
        assert(a@ =~= b@);
    }
    true
}

/// Whether the list holds a content type with the given bytes.
pub(crate) fn contains_ct(content_types: &Vec<ContentType>, ct: &ContentType) -> (r: bool)
    ensures
        r == cts_view(content_types@).contains(ct@),
{
    let mut i: usize = 0;
    while i < content_types.len()
        invariant
            i <= content_types.len(),
            forall|j: int| 0 <= j < i ==> cts_view(content_types@)[j] != ct@,
        decreases content_types.len() - i,
    {
        if bytes_eq(&content_types[i].val, &ct.val) {
            proof {
                assert(cts_view(content_types@)[i as int] == ct@);
            }
            return true;
        }
        i = i + 1;
    }
    false
}

/// A control frame: the handshake and termination messages of the
/// protocol.
#[derive(Debug, Clone, PartialEq, Eq)]
pub enum Control {
    Accept(Data),
    Start(Data),
    Stop,
    Ready(Data),
    Finish,
}

impl View for Control {
    type V = ControlV;

    open spec fn view(&self) -> ControlV {
        match self {
            Control::Accept(d) => ControlV::Accept(d@),
            Control::Start(d) => ControlV::Start(d@),
            Control::Stop => ControlV::Stop,
            Control::Ready(d) => ControlV::Ready(d@),
            Control::Finish => ControlV::Finish,
        }
    }
}

/// The declared encoded size of a field, wide enough for any declared
/// body length.
fn declared_size(f: &Field) -> (r: u64)
    requires
        field_body_len(f@) <= u32::MAX,
    ensures
        r == field_size(f@),
{
    8 + match f {
        Field::ContentType(content_type) => content_type.len() as u64,
        Field::Unknown { tag: _, len } => *len as u64,
    }
}

/// Mapping a field list to its ghost view commutes with appending.
pub proof fn lemma_fields_view_push(s: Seq<Field>, f: Field)
    ensures
        fields_view(s.push(f)) == fields_view(s).push(f@),
{
    assert(fields_view(s.push(f)) =~= fields_view(s).push(f@));
}

impl Control {
    /// Reads a control frame from the stream, after the escape word: the
    /// body length is read and bounds-checked, the declared body is taken
    /// from the stream whole (so the stream stays aligned whatever the body
    /// holds), and the body is decoded.
    pub fn decode(src: &mut Source) -> (r: Result<Control, Error>)
        requires
            old(src).wf(),
        ensures
            final(src).wf(),
            ({
                let (res, n) = dec_control(old(src)@);
                &&& final(src)@ == old(src)@.skip(n)
                &&& match res {
                    Ok(cv) => r matches Ok(c) && c@ == cv,
                    Err(e) => r matches Err(e2) && e2 == e,
                }
            }),
    {
        let ghost b = old(src)@;
        let len = match src.read_frame_value() {
            Ok(l) => l,
            Err(e) => {
                proof {
                    assert(b.skip(0) =~= b);
                }
                return Err(e);
            },
        };
        if len > FRAME_LENGTH_MAX || len < FSTRM_LENGTH_SIZE {
            src.consume(len);
            proof {
                if len as int <= b.len() - 4 {
                    assert(b.skip(4).skip(len as int) =~= b.skip(4 + len as int));
                } else {
                    assert(b.skip(b.len() as int) =~= Seq::<u8>::empty());
                }
            }
            return Err(Error::FrameFormat);
        }
        let body = match src.read_frame_data_for_len(len) {
            Ok(v) => v,
            Err(e) => {
                return Err(e);
            },
        };
        proof {
            assert(body@ =~= b.subrange(4, 4 + len as int));
            assert(b.skip(4).skip(len as int) =~= b.skip(4 + len as int));
        }
        Self::decode_body(body)
    }

    /// Decodes a control frame from its full body: the type word, then the
    /// fields the type calls for. The body is already delimited, so every
    /// failure is a format error.
    #[verifier::loop_isolation(false)]
    pub fn decode_body(body: Vec<u8>) -> (r: Result<Control, Error>)
        ensures
            match dec_control_body(body@) {
                Ok(cv) => r matches Ok(c) && c@ == cv,
                Err(e) => r matches Err(e2) && e2 == e,
            },
    {
        let ghost b = body@;
        let total = body.len();
        let mut src = Source::new(body);
        let tag = match src.read_frame_value() {
            Ok(t) => t,
            Err(_) => {
                return Err(Error::FrameFormat);
            },
        };
        let ghost r0 = b.skip(4);
        let rem = total - 4;
        if tag == FSTRM_CONTROL_STOP {
            if rem == 0 {
                Ok(Control::Stop)
            } else {
                Err(Error::FrameFormat)
            }
        } else if tag == FSTRM_CONTROL_FINISH {
            if rem == 0 {
                Ok(Control::Finish)
            } else {
                Err(Error::FrameFormat)
            }
        } else if tag == FSTRM_CONTROL_START {
            if rem == 0 {
                Ok(Control::Start(Data::Empty))
            } else {
                let field = match Field::decode(&mut src) {
                    Ok(f) => f,
                    Err(e) => {
                        return Err(e);
                    },
                };
                let l = declared_size(&field);
                if l > rem as u64 {
                    Err(Error::FrameFormat)
                } else {
                    Ok(Control::Start(Data::Field(field)))
                }
            }
        } else if tag == FSTRM_CONTROL_ACCEPT || tag == FSTRM_CONTROL_READY {
            let mut fields: Vec<Field> = Vec::new();
            let mut len = rem;
            while len > 0
                invariant
                    src.wf(),
                    src@.len() == len,
                    tag == FSTRM_CONTROL_ACCEPT || tag == FSTRM_CONTROL_READY,
                    match dec_fields(src@) {
                        Ok(fs) => dec_fields(r0) == Ok::<Seq<FieldV>, Error>(
                            fields_view(fields@) + fs,
                        ),
                        Err(e) => dec_fields(r0) == Err::<Seq<FieldV>, Error>(e),
                    },
                decreases len,
            {
                let ghost cur = src@;
                let field = match Field::decode(&mut src) {
                    Ok(f) => f,
                    Err(e) => {
                        return Err(e);
                    },
                };
                let l = declared_size(&field);
                if l > len as u64 {
                    return Err(Error::FrameFormat);
                }
                let ghost pre = fields@;
                fields.push(field);
                len = len - l as usize;
                proof {
                    let s = dec_field(cur)->Ok_0.1;
                    lemma_fields_view_push(pre, field);
                    if dec_fields(cur.skip(s)) is Ok {
                        let fs2 = dec_fields(cur.skip(s))->Ok_0;
                        assert(fields_view(pre) + (seq![field@] + fs2) =~= fields_view(fields@)
                            + fs2);
                    }
                }
            }
            proof {
                assert(fields_view(fields@) + Seq::<FieldV>::empty() =~= fields_view(fields@));
            }
            let d = Data::from_fields(fields);
            if tag == FSTRM_CONTROL_ACCEPT {
                Ok(Control::Accept(d))
            } else {
                Ok(Control::Ready(d))
            }
        } else {
            Err(Error::FrameFormat)
        }
    }

    /// The frame's 32-bit type tag.
    pub fn tag(&self) -> (r: u32)
        ensures
            r == control_tag(self@),
    {
        match self {
            Control::Accept(_) => FSTRM_CONTROL_ACCEPT,
            Control::Start(_) => FSTRM_CONTROL_START,
            Control::Stop => FSTRM_CONTROL_STOP,
            Control::Ready(_) => FSTRM_CONTROL_READY,
            Control::Finish => FSTRM_CONTROL_FINISH,
        }
    }

    /// Size of the frame's body: the type word plus its fields.
    pub fn body_size(&self) -> (r: FstrmLength)
        requires
            control_body_size(self@) <= u32::MAX,
        ensures
            r == control_body_size(self@),
    {
        FSTRM_LENGTH_SIZE + match self {
            Control::Accept(fields) => fields.size(),
            Control::Start(fields) => fields.size(),
            Control::Ready(fields) => fields.size(),
            Control::Stop => 0,
            Control::Finish => 0,
        }
    }

    /// Size of the frame past the escape word: the body-length word plus
    /// the body.
    pub fn size(&self) -> (r: FstrmLength)
        requires
            control_size(self@) <= u32::MAX,
        ensures
            r == control_size(self@),
    {
        FSTRM_LENGTH_SIZE + self.body_size()
    }

    /// Writes the body length, the type tag, and the fields. The escape
    /// word before them is the frame header's business.
    pub fn encode(&self, out: &mut Vec<u8>)
        requires
            control_wf(self@),
        ensures
            final(out)@ == old(out)@ + enc_control(self@),
    {
        proof {
            lemma_fields_size_nonneg(control_fields(self@));
        }
        put_u32(out, self.body_size());
        put_u32(out, self.tag());
        match self {
            Control::Accept(fields) => fields.encode(out),
            Control::Start(fields) => fields.encode(out),
            Control::Ready(fields) => fields.encode(out),
            Control::Stop => (),
            Control::Finish => (),
        }
        proof {
            assert(final(out)@ =~= old(out)@ + enc_control(self@));
        }
    }
}

} // verus!
