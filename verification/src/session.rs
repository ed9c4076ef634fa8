//! The session state machine: the phases of a frame stream, the
//! content-type negotiation of the bi-directional handshake, and which
//! frames each phase admits.

use vstd::prelude::*;
use crate::Error;
use crate::Frame;
use crate::Payload;
use crate::control::ContentType;
use crate::control::Control;
use crate::control::Data;
use crate::control::Field;
use crate::control::contains_ct;
use crate::control::cts_view;
use crate::control::cts_fields_view;
use crate::control::fields_view;
use crate::wire::ControlV;
use crate::wire::FieldV;
use crate::wire::FrameV;

verus! {

/// Where a session stands in its lifecycle.
#[derive(Copy, Clone, Debug, PartialEq, Eq, Structural)]
pub enum Phase {
    /// Created; no handshake frame seen yet.
    Ready,
    /// The bi-directional handshake answered `READY` with `ACCEPT`.
    Accepted,
    /// `START` observed; data frames may flow.
    Started,
    /// `STOP` or `FINISH` observed; the stream ended cleanly.
    Stopped,
    /// `FINISH` was emitted; the session is over.
    Finished,
}

/// The content-type bodies a field carries: one for a `CONTENT_TYPE`
/// field, none for an unknown field.
pub open spec fn field_cts(f: FieldV) -> Seq<Seq<u8>> {
    match f {
        FieldV::ContentType(s) => seq![s],
        FieldV::Unknown { .. } => Seq::empty(),
    }
}

/// The content types offered by a field list, in order, repeats kept.
pub open spec fn content_types_of(fs: Seq<FieldV>) -> Seq<Seq<u8>>
    decreases fs.len(),
{
    if fs.len() == 0 {
        Seq::empty()
    } else {
        content_types_of(fs.drop_last()) + field_cts(fs.last())
    }
}

/// The outcome of negotiation: the offered content types the local side
/// admits (all of them when the local list is empty), in offer order, each
/// kept once.
pub open spec fn negotiated_list(local: Seq<Seq<u8>>, offered: Seq<Seq<u8>>) -> Seq<Seq<u8>>
    decreases offered.len(),
{
    if offered.len() == 0 {
        Seq::empty()
    } else {
        let prefix = negotiated_list(local, offered.drop_last());
        let x = offered.last();
        if (local.len() == 0 || local.contains(x)) && !offered.drop_last().contains(x) {
            prefix.push(x)
        } else {
            prefix
        }
    }
}

/// One `CONTENT_TYPE` field per content type.
pub open spec fn cts_to_fields(s: Seq<Seq<u8>>) -> Seq<FieldV> {
    s.map_values(|b: Seq<u8>| FieldV::ContentType(b))
}

/// What the negotiated list holds: exactly the offered content types the
/// local side admits.
pub proof fn lemma_negotiated_contains(local: Seq<Seq<u8>>, offered: Seq<Seq<u8>>, y: Seq<u8>)
    ensures
        negotiated_list(local, offered).contains(y) <==> ((local.len() == 0 || local.contains(y))
            && offered.contains(y)),
    decreases offered.len(),
{
    if offered.len() > 0 {
        lemma_negotiated_contains(local, offered.drop_last(), y);
        let prefix = negotiated_list(local, offered.drop_last());
        let x = offered.last();
        if (local.len() == 0 || local.contains(x)) && !offered.drop_last().contains(x) {
            assert forall|z: Seq<u8>| prefix.push(x).contains(z) implies prefix.contains(z) || z
                == x by {
                let i = choose|i: int| 0 <= i < prefix.push(x).len() && prefix.push(x)[i] == z;
                if i < prefix.len() {
                    assert(prefix[i] == z);
                }
            }
            if prefix.contains(y) || y == x {
                assert(prefix.push(x).contains(y)) by {
                    if prefix.contains(y) {
                        let i = choose|i: int| 0 <= i < prefix.len() && prefix[i] == y;
                        assert(prefix.push(x)[i] == y);
                    } else {
                        assert(prefix.push(x)[prefix.len() as int] == y);
                    }
                }
            }
        }
        if offered.contains(y) {
            let i = choose|i: int| 0 <= i < offered.len() && offered[i] == y;
            if i < offered.len() - 1 {
                assert(offered.drop_last()[i] == y);
            } else {
                assert(y == x);
            }
        }
        if offered.drop_last().contains(y) {
            let i = choose|i: int| 0 <= i < offered.drop_last().len() && offered.drop_last()[i]
                == y;
            assert(offered[i] == y);
        }
        if y == x {
            assert(offered[offered.len() - 1] == y);
        }
    }
}

/// The negotiated list carries each content type at most once, and as a
/// set it is the offered set when the local list is empty, else the
/// intersection of the local and offered sets.
pub proof fn lemma_negotiation_set(local: Seq<Seq<u8>>, offered: Seq<Seq<u8>>)
    ensures
        negotiated_list(local, offered).no_duplicates(),
        negotiated_list(local, offered).to_set() == if local.len() == 0 {
            offered.to_set()
        } else {
            local.to_set().intersect(offered.to_set())
        },
    decreases offered.len(),
{
    let n = negotiated_list(local, offered);
    if offered.len() == 0 {
        assert(n.to_set() =~= Seq::<Seq<u8>>::empty().to_set());
        if local.len() == 0 {
            assert(n.to_set() =~= offered.to_set());
        } else {
            assert forall|y: Seq<u8>| !local.to_set().intersect(offered.to_set()).contains(
                y,
            ) by {
                assert(!offered.contains(y));
            }
            assert(n.to_set() =~= local.to_set().intersect(offered.to_set()));
        }
    } else {
        lemma_negotiation_set(local, offered.drop_last());
        let prefix = negotiated_list(local, offered.drop_last());
        let x = offered.last();
        if (local.len() == 0 || local.contains(x)) && !offered.drop_last().contains(x) {
            lemma_negotiated_contains(local, offered.drop_last(), x);
            assert(!prefix.contains(x));
            assert forall|j: int, k: int|
                0 <= j < k < prefix.push(x).len() implies prefix.push(x)[j] != prefix.push(
                x,
            )[k] by {
                if k < prefix.len() {
                } else {
                    if prefix.push(x)[j] == x {
                        assert(prefix[j] == x);
                        assert(prefix.contains(x));
                    }
                }
            }
        }
        assert forall|y: Seq<u8>| #[trigger] n.contains(y) implies ((local.len() == 0
            || local.contains(y)) && offered.contains(y)) by {
            lemma_negotiated_contains(local, offered, y);
        }
        assert forall|y: Seq<u8>|
            ((local.len() == 0 || local.contains(y)) && offered.contains(
                y,
            )) implies #[trigger] n.contains(y) by {
            lemma_negotiated_contains(local, offered, y);
        }
        if local.len() == 0 {
            assert(n.to_set() =~= offered.to_set());
        } else {
            assert(n.to_set() =~= local.to_set().intersect(offered.to_set()));
        }
    }
}

/// The handshake law: negotiation comes out nonempty, and `accept` hence
/// succeeds in phase `Ready`, exactly when the intersection of the local
/// and offered sets is nonempty, or, with an empty local list, when
/// anything was offered at all.
pub proof fn lemma_handshake_success(local: Seq<Seq<u8>>, offered: Seq<Seq<u8>>)
    ensures
        negotiated_list(local, offered).len() > 0 <==> !(if local.len() == 0 {
            offered.to_set()
        } else {
            local.to_set().intersect(offered.to_set())
        }).is_empty(),
{
    lemma_negotiation_set(local, offered);
    let n = negotiated_list(local, offered);
    if n.len() > 0 {
        assert(n.contains(n[0]));
        assert(n.to_set().contains(n[0]));
    }
    if !n.to_set().is_empty() {
        let y = choose|y: Seq<u8>| n.to_set().contains(y);
        assert(n.contains(y));
    }
}

/// Appending a field to a list appends the content types it carries.
pub proof fn lemma_content_types_of_push(fs: Seq<FieldV>, f: FieldV)
    ensures
        content_types_of(fs.push(f)) == content_types_of(fs) + field_cts(f),
{
    assert(fs.push(f).drop_last() =~= fs);
    assert(fs.push(f).last() == f);
}

/// Computes the negotiated content types for an offered body: the offered
/// types the local side admits (all of them when the local list is empty),
/// in offer order, each kept once.
pub fn negotiate(local: &Vec<ContentType>, offered: &Data) -> (r: Vec<ContentType>)
    ensures
        cts_view(r@) == negotiated_list(cts_view(local@), content_types_of(offered@)),
{
    let ghost lv = cts_view(local@);
    let mut acc: Vec<ContentType> = Vec::new();
    proof {
        assert(cts_view(acc@) =~= negotiated_list(lv, content_types_of(Seq::<FieldV>::empty())));
    }
    match offered {
        Data::Empty => {},
        Data::Field(field) => {
            consider_field(local, &mut acc, field, Ghost(Seq::empty()));
            proof {
                assert(seq![field@].drop_last() =~= Seq::<FieldV>::empty());
                assert(seq![field@].last() == field@);
                assert(Seq::<Seq<u8>>::empty() + field_cts(field@) =~= content_types_of(
                    seq![field@],
                ));
            }
        },
        Data::Fields(fields) => {
            let ghost fv = fields_view(fields@);
            let mut i: usize = 0;
            while i < fields.len()
                invariant
                    i <= fields.len(),
                    fv == fields_view(fields@),
                    lv == cts_view(local@),
                    cts_view(acc@) == negotiated_list(lv, content_types_of(fv.take(i as int))),
                decreases fields.len() - i,
            {
                consider_field(local, &mut acc, &fields[i], Ghost(content_types_of(fv.take(i as int))));
                proof {
                    lemma_content_types_of_push(fv.take(i as int), fv[i as int]);
                    assert(fv.take(i as int).push(fv[i as int]) =~= fv.take(i + 1));
                }
                i = i + 1;
            }
            proof {
                assert(fv.take(fields@.len() as int) =~= fv);
            }
        },
    }
    acc
}

/// Encoded size of a content-type list written as `CONTENT_TYPE` fields:
/// two header words plus the body for each.
pub open spec fn cts_size(s: Seq<Seq<u8>>) -> int
    decreases s.len(),
{
    if s.len() == 0 {
        0
    } else {
        8 + s[0].len() + cts_size(s.skip(1))
    }
}

/// The size of a content-type list splits off its last element.
pub proof fn lemma_cts_size_snoc(s: Seq<Seq<u8>>, x: Seq<u8>)
    ensures
        cts_size(s.push(x)) == cts_size(s) + 8 + x.len(),
    decreases s.len(),
{
    assert(s.push(x).len() == s.len() + 1);
    assert(cts_size(s.push(x)) == 8 + s.push(x)[0].len() + cts_size(s.push(x).skip(1)));
    if s.len() == 0 {
        assert(s.push(x)[0] == x);
        assert(s.push(x).skip(1) =~= Seq::<Seq<u8>>::empty());
        assert(cts_size(s.push(x).skip(1)) == 0);
        assert(cts_size(s) == 0);
    } else {
        assert(s.push(x)[0] == s[0]);
        assert(s.push(x).skip(1) =~= s.skip(1).push(x));
        lemma_cts_size_snoc(s.skip(1), x);
        assert(cts_size(s) == 8 + s[0].len() + cts_size(s.skip(1)));
    }
}

/// Negotiation never grows the encoded size: the negotiated list is drawn
/// from the offered one without repeats.
pub proof fn lemma_negotiated_size(local: Seq<Seq<u8>>, offered: Seq<Seq<u8>>)
    ensures
        0 <= cts_size(negotiated_list(local, offered)) <= cts_size(offered),
    decreases offered.len(),
{
    if offered.len() == 0 {
    } else {
        lemma_negotiated_size(local, offered.drop_last());
        let x = offered.last();
        assert(offered.drop_last().push(x) =~= offered);
        lemma_cts_size_snoc(offered.drop_last(), x);
        if (local.len() == 0 || local.contains(x)) && !offered.drop_last().contains(x) {
            lemma_cts_size_snoc(negotiated_list(local, offered.drop_last()), x);
        }
    }
}

/// The content types a field list offers take no more room than the list
/// itself.
pub proof fn lemma_content_types_size(fs: Seq<FieldV>)
    ensures
        cts_size(content_types_of(fs)) <= crate::wire::fields_size(fs),
    decreases fs.len(),
{
    crate::wire::lemma_fields_size_nonneg(fs);
    if fs.len() > 0 {
        lemma_content_types_size(fs.drop_last());
        crate::wire::lemma_fields_size_split(fs, fs.len() - 1);
        assert(fs.take(fs.len() - 1) =~= fs.drop_last());
        assert(fs.skip(fs.len() - 1) =~= seq![fs.last()]);
        crate::wire::lemma_fields_singleton(fs.last());
        let pre = content_types_of(fs.drop_last());
        match fs.last() {
            FieldV::ContentType(s) => {
                assert(pre + field_cts(fs.last()) =~= pre.push(s));
                lemma_cts_size_snoc(pre, s);
            },
            FieldV::Unknown { .. } => {
                assert(pre + field_cts(fs.last()) =~= pre);
            },
        }
    }
}

/// Writing a content-type list as `CONTENT_TYPE` fields takes exactly the
/// list's encoded size.
pub proof fn lemma_cts_to_fields_size(s: Seq<Seq<u8>>)
    ensures
        crate::wire::fields_size(cts_to_fields(s)) == cts_size(s),
    decreases s.len(),
{
    if s.len() > 0 {
        assert(cts_to_fields(s)[0] == FieldV::ContentType(s[0]));
        assert(cts_to_fields(s).skip(1) =~= cts_to_fields(s.skip(1)));
        lemma_cts_to_fields_size(s.skip(1));
    }
}

/// Every content type a field list offers is within the per-field cap when
/// the list's `CONTENT_TYPE` bodies are.
pub proof fn lemma_content_types_bounded(fs: Seq<FieldV>, y: Seq<u8>)
    requires
        crate::wire::cts_bounded(fs),
        content_types_of(fs).contains(y),
    ensures
        y.len() <= crate::wire::FIELD_CONTENT_TYPE_LENGTH_MAX,
    decreases fs.len(),
{
    if fs.len() > 0 {
        let pre = content_types_of(fs.drop_last());
        let add = field_cts(fs.last());
        let whole = pre + add;
        let i = choose|i: int| 0 <= i < whole.len() && whole[i] == y;
        if i < pre.len() {
            assert(pre[i] == y);
            assert(crate::wire::cts_bounded(fs.drop_last())) by {
                assert(forall|j: int|
                    0 <= j < fs.drop_last().len() ==> #[trigger] fs.drop_last()[j] == fs[j]);
            }
            lemma_content_types_bounded(fs.drop_last(), y);
        } else {
            assert(fs[fs.len() - 1] == fs.last());
            match fs.last() {
                FieldV::ContentType(s) => {
                    assert(y == s);
                },
                FieldV::Unknown { .. } => {
                    assert(false);
                },
            }
        }
    }
}

/// The `ACCEPT` frame built from a negotiation is well formed whenever the
/// offered field list came out of the decoder: every negotiated content
/// type respects the per-field cap and the whole body stays within the
/// global cap.
pub proof fn lemma_accept_wf(local: Seq<Seq<u8>>, fs: Seq<FieldV>)
    requires
        crate::wire::fields_size(fs) <= crate::wire::FRAME_LENGTH_MAX - 4,
        crate::wire::cts_bounded(fs),
    ensures
        crate::wire::control_wf(
            ControlV::Accept(cts_to_fields(negotiated_list(local, content_types_of(fs)))),
        ),
{
    let offered = content_types_of(fs);
    let n = negotiated_list(local, offered);
    lemma_negotiated_size(local, offered);
    lemma_content_types_size(fs);
    lemma_cts_to_fields_size(n);
    assert forall|i: int| 0 <= i < cts_to_fields(n).len() implies crate::wire::field_wf(
        #[trigger] cts_to_fields(n)[i],
    ) by {
        assert(cts_to_fields(n)[i] == FieldV::ContentType(n[i]));
        assert(n.contains(n[i]));
        lemma_negotiated_contains(local, offered, n[i]);
        lemma_content_types_bounded(fs, n[i]);
    }
}

/// One side of a frame stream: its phase, its local allow-list, the set
/// negotiated with the peer, and the content type the peer started with.
/// Each operation is legal in some phases and refused in the others.
pub struct Session {
    phase: Phase,
    content_types: Vec<ContentType>,
    negotiated: Vec<ContentType>,
    content_type: Option<ContentType>,
}

impl Session {
    /// The session's phase.
    pub closed spec fn phase(self) -> Phase {
        self.phase
    }

    /// The local allow-list, as byte sequences. Empty means any content
    /// type is acceptable.
    pub closed spec fn local_cts(self) -> Seq<Seq<u8>> {
        cts_view(self.content_types@)
    }

    /// The content types negotiated by `accept`, as byte sequences.
    pub closed spec fn negotiated_cts(self) -> Seq<Seq<u8>> {
        cts_view(self.negotiated@)
    }

    /// The content type the peer's `START` named, if any.
    pub closed spec fn chosen(self) -> Option<Seq<u8>> {
        match self.content_type {
            Some(ct) => Some(ct@),
            None => None,
        }
    }

    /// A fresh session over the given allow-list, in phase `Ready`.
    pub fn new(content_types: Vec<ContentType>) -> (s: Session)
        ensures
            s.phase() is Ready,
            s.local_cts() == cts_view(content_types@),
            s.negotiated_cts() == Seq::<Seq<u8>>::empty(),
            s.chosen() is None,
    {
        let s = Session {
            phase: Phase::Ready,
            content_types,
            negotiated: Vec::new(),
            content_type: None,
        };
        proof {
            assert(s.negotiated_cts() =~= Seq::<Seq<u8>>::empty());
        }
        s
    }

    /// The session's phase.
    pub fn current_phase(&self) -> (r: Phase)
        ensures
            r == self.phase(),
    {
        self.phase
    }

    /// The content type the peer's `START` named, if any.
    pub fn content_type_ref(&self) -> (r: Option<&ContentType>)
        ensures
            match r {
                Some(ct) => self.chosen() == Some(ct@),
                None => self.chosen() is None,
            },
    {
        self.content_type.as_ref()
    }

    /// Answers the peer's `READY` body: in phase `Ready`, negotiates the
    /// content types and hands back the `ACCEPT` frame to write, moving to
    /// `Accepted`; negotiation that comes up empty is a mismatch. In every
    /// other phase the operation is refused.
    pub fn accept(&mut self, ready: Data) -> (r: Result<Control, Error>)
        ensures
            ({
                let n = negotiated_list(old(self).local_cts(), content_types_of(ready@));
                match r {
                    Ok(c) => {
                        &&& old(self).phase() is Ready
                        &&& n.len() > 0
                        &&& c@ == ControlV::Accept(cts_to_fields(n))
                        &&& final(self).phase() is Accepted
                        &&& final(self).negotiated_cts() == n
                        &&& final(self).local_cts() == old(self).local_cts()
                        &&& final(self).chosen() == old(self).chosen()
                    },
                    Err(e) => {
                        &&& *final(self) == *old(self)
                        &&& if old(self).phase() is Ready {
                            e == Error::ContentTypeMismatch && n.len() == 0
                        } else {
                            e == Error::UnexpectedControl
                        }
                    },
                }
            }),
    {
        match self.phase {
            Phase::Ready => {},
            _ => {
                return Err(Error::UnexpectedControl);
            },
        }
        let negotiated = negotiate(&self.content_types, &ready);
        if negotiated.len() == 0 {
            return Err(Error::ContentTypeMismatch);
        }
        let accept = Control::Accept(Data::from_content_types(&negotiated));
        self.negotiated = negotiated;
        self.phase = Phase::Accepted;
        proof {
            let n = negotiated_list(old(self).local_cts(), content_types_of(ready@));
            assert(cts_fields_view(self.negotiated@) =~= cts_to_fields(n));
        }
        Ok(accept)
    }

    /// Takes the peer's `START` body: in phase `Ready` (uni-directional)
    /// or `Accepted` (bi-directional), checks the named content type, if
    /// any, against the allow-list or the negotiated set, and moves to
    /// `Started`. A content type outside the set is a mismatch; a body
    /// that is not zero or one `CONTENT_TYPE` field is refused, as is the
    /// operation in every other phase.
    pub fn start(&mut self, start: Data) -> (r: Result<(), Error>)
        ensures
            ({
                let fs = start@;
                let a = if old(self).phase() is Ready {
                    old(self).local_cts()
                } else {
                    old(self).negotiated_cts()
                };
                let any = old(self).phase() is Ready && old(self).local_cts().len() == 0;
                match r {
                    Ok(_) => {
                        &&& old(self).phase() is Ready || old(self).phase() is Accepted
                        &&& final(self).phase() is Started
                        &&& final(self).local_cts() == old(self).local_cts()
                        &&& final(self).negotiated_cts() == old(self).negotiated_cts()
                        &&& fs.len() <= 1
                        &&& (fs.len() == 0 ==> final(self).chosen() is None)
                        &&& (fs.len() == 1 ==> (fs[0] matches FieldV::ContentType(s) && (any
                            || a.contains(s)) && final(self).chosen() == Some(s)))
                    },
                    Err(e) => {
                        &&& *final(self) == *old(self)
                        &&& if !(old(self).phase() is Ready || old(self).phase() is Accepted) {
                            e == Error::UnexpectedControl
                        } else if fs.len() == 1 && fs[0] is ContentType {
                            e == Error::ContentTypeMismatch && !any && !a.contains(
                                fs[0]->ContentType_0,
                            )
                        } else {
                            e == Error::UnexpectedControl && fs.len() != 0
                        }
                    },
                }
            }),
    {
        let in_ready = match self.phase {
            Phase::Ready => true,
            Phase::Accepted => false,
            _ => {
                return Err(Error::UnexpectedControl);
            },
        };
        let mut fields = start.into_fields();
        if fields.len() == 0 {
            self.content_type = None;
            self.phase = Phase::Started;
            return Ok(());
        }
        if fields.len() != 1 {
            return Err(Error::UnexpectedControl);
        }
        let field = fields.pop().unwrap();
        proof {
            assert(start@[0] == fields_view(fields@.push(field))[0]);
        }
        match field {
            Field::ContentType(ct) => {
                let ok = if in_ready {
                    self.content_types.len() == 0 || contains_ct(&self.content_types, &ct)
                } else {
                    contains_ct(&self.negotiated, &ct)
                };
                if ok {
                    self.content_type = Some(ct);
                    self.phase = Phase::Started;
                    Ok(())
                } else {
                    Err(Error::ContentTypeMismatch)
                }
            },
            Field::Unknown { .. } => Err(Error::UnexpectedControl),
        }
    }

    /// Takes the next frame of the data phase: a data frame yields its
    /// payload, `STOP` or `FINISH` ends the stream cleanly and moves to
    /// `Stopped`, any other control frame is refused, as is the operation
    /// outside phase `Started`.
    pub fn read_frame(&mut self, frame: Frame) -> (r: Result<Option<Payload>, Error>)
        ensures
            ({
                match r {
                    Ok(p) => {
                        &&& old(self).phase() is Started
                        &&& match p {
                            Some(payload) => frame@ matches FrameV::Data(d) && payload@ == d
                                && *final(self) == *old(self),
                            None => {
                                &&& (frame@ == FrameV::Control(ControlV::Stop) || frame@
                                    == FrameV::Control(ControlV::Finish))
                                &&& final(self).phase() is Stopped
                                &&& final(self).local_cts() == old(self).local_cts()
                                &&& final(self).negotiated_cts() == old(self).negotiated_cts()
                                &&& final(self).chosen() == old(self).chosen()
                            },
                        }
                    },
                    Err(e) => {
                        &&& *final(self) == *old(self)
                        &&& e == Error::UnexpectedControl
                        &&& (old(self).phase() is Started ==> (frame@ matches FrameV::Control(cv)
                            && !(cv is Stop) && !(cv is Finish)))
                    },
                }
            }),
    {
        match self.phase {
            Phase::Started => {},
            _ => {
                return Err(Error::UnexpectedControl);
            },
        }
        match frame {
            Frame::Data(payload) => Ok(Some(payload)),
            Frame::Control(Control::Stop) => {
                self.phase = Phase::Stopped;
                Ok(None)
            },
            Frame::Control(Control::Finish) => {
                self.phase = Phase::Stopped;
                Ok(None)
            },
            Frame::Control(_) => Err(Error::UnexpectedControl),
        }
    }

    /// Ends the session from `Accepted` or `Started`: hands back the
    /// `FINISH` frame to write and moves to `Finished`. In every other
    /// phase the operation is refused.
    pub fn finish(&mut self) -> (r: Result<Control, Error>)
        ensures
            match r {
                Ok(c) => {
                    &&& old(self).phase() is Accepted || old(self).phase() is Started
                    &&& c@ == ControlV::Finish
                    &&& final(self).phase() is Finished
                    &&& final(self).local_cts() == old(self).local_cts()
                    &&& final(self).negotiated_cts() == old(self).negotiated_cts()
                    &&& final(self).chosen() == old(self).chosen()
                },
                Err(e) => {
                    &&& *final(self) == *old(self)
                    &&& e == Error::UnexpectedControl
                    &&& !(old(self).phase() is Accepted || old(self).phase() is Started)
                },
            },
    {
        match self.phase {
            Phase::Accepted => {},
            Phase::Started => {},
            _ => {
                return Err(Error::UnexpectedControl);
            },
        }
        self.phase = Phase::Finished;
        Ok(Control::Finish)
    }
}

/// Extends a negotiation in progress by one offered field.
fn consider_field(
    local: &Vec<ContentType>,
    acc: &mut Vec<ContentType>,
    field: &Field,
    off: Ghost<Seq<Seq<u8>>>,
)
    requires
        cts_view(old(acc)@) == negotiated_list(cts_view(local@), off@),
    ensures
        cts_view(final(acc)@) == negotiated_list(cts_view(local@), off@ + field_cts(field@)),
{
    let ghost lv = cts_view(local@);
    match field {
        Field::Unknown { .. } => {
            proof {
                assert(off@ + field_cts(field@) =~= off@);
            }
        },
        Field::ContentType(ct) => {
            let ghost x = ct@;
            let ghost offered = off@ + field_cts(field@);
            proof {
                assert(offered.drop_last() =~= off@);
                assert(offered.last() == x);
                lemma_negotiated_contains(lv, off@, x);
            }
            let admitted = local.len() == 0 || contains_ct(local, ct);
            if admitted && !contains_ct(acc, ct) {
                let ghost pre = acc@;
                acc.push(ct.duplicate());
                proof {
                    assert(cts_view(acc@) =~= cts_view(pre).push(x));
                }
            }
        },
    }
}

} // verus!
