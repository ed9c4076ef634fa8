//! Codec-level checks: sizes, round trips, the boundary lengths, and the
//! error each malformed input draws.

use fstrm::control::ContentType;
use fstrm::reader::Source;
use fstrm::session::Phase;
use fstrm::session::Session;
use fstrm::writer::write_frame_data;
use fstrm::writer::write_frame_header;
use fstrm::writer::write_frame_len;
use fstrm::writer::write_frame_value;
use fstrm::Control;
use fstrm::ControlData;
use fstrm::ControlField;
use fstrm::Error;
use fstrm::Frame;
use fstrm::FrameHeader;

fn be(v: u32) -> Vec<u8> {
    v.to_be_bytes().to_vec()
}

fn ct_field(body: &[u8]) -> ControlField {
    ControlField::ContentType(ContentType::new(body.to_vec()))
}

#[test]
fn test_data_frame_round_trip() {
    let frame = Frame::Data(b"payload".to_vec());
    let mut out = Vec::new();
    frame.encode(&mut out).unwrap();
    assert_eq!(out[..4], 7u32.to_be_bytes());
    let mut src = Source::new(out);
    assert_eq!(src.read_frame().unwrap(), frame);
}

#[test]
fn test_control_frame_round_trip() {
    let frame = Frame::Control(Control::Accept(ControlData::from_fields(vec![
        ct_field(b"one"),
        ct_field(b"two"),
    ])));
    let mut out = Vec::new();
    frame.encode(&mut out).unwrap();
    let mut src = Source::new(out);
    assert_eq!(src.read_frame().unwrap(), frame);
}

#[test]
fn test_stream_round_trip() {
    let frames = vec![
        Frame::Control(Control::Start(ControlData::Field(ct_field(b"ct")))),
        Frame::Data(b"first".to_vec()),
        Frame::Data(b"second".to_vec()),
        Frame::Control(Control::Stop),
    ];
    let mut out = Vec::new();
    for frame in frames.iter() {
        frame.encode(&mut out).unwrap();
    }
    let mut src = Source::new(out);
    for frame in frames.iter() {
        assert_eq!(src.read_frame().unwrap(), *frame);
    }
}

#[test]
fn test_control_encoded_size_formula() {
    // ACCEPT with bodies of 3 and 5 bytes: 8 + 4 + (8 + 3) + (8 + 5).
    let control = Control::Accept(ControlData::from_fields(vec![
        ct_field(b"abc"),
        ct_field(b"defgh"),
    ]));
    assert_eq!(control.body_size(), 4 + 11 + 13);
    assert_eq!(control.size(), 4 + 4 + 11 + 13);
    let frame = Frame::Control(control);
    let mut out = Vec::new();
    frame.encode(&mut out).unwrap();
    assert_eq!(out.len(), 8 + 4 + (8 + 3) + (8 + 5));
}

#[test]
fn test_field_sizes() {
    let field = ct_field(b"abcd");
    assert_eq!(field.body_size(), 4);
    assert_eq!(field.size(), 12);
    assert_eq!(field.ref_body(), b"abcd");
}

#[test]
fn test_content_type_accessors() {
    let ct = ContentType::new(b"x/y".to_vec());
    assert_eq!(ct.len(), 3);
    assert_eq!(ct.ref_body(), b"x/y");
    assert_eq!(ct.into_inner(), b"x/y".to_vec());
}

#[test]
fn test_empty_data_frame_rejected_on_encode() {
    let frame = Frame::Data(Vec::new());
    let mut out = Vec::new();
    assert_eq!(frame.encode(&mut out), Err(Error::FrameFormat));
    assert!(out.is_empty());
}

#[test]
fn test_frame_header_kinds() {
    let h = FrameHeader::Length(9);
    assert!(h.is_length());
    assert!(!h.is_control_header());
    let c = FrameHeader::ControlHeader;
    assert!(c.is_control_header());
    assert!(!c.is_length());

    let f = Frame::Data(b"x".to_vec());
    assert!(f.is_data());
    assert!(!f.is_control());
    let g = Frame::Control(Control::Stop);
    assert!(g.is_control());
    assert!(!g.is_data());
}

#[test]
fn test_content_type_at_cap() {
    // A CONTENT_TYPE body of exactly 256 bytes is accepted.
    let mut body = Vec::new();
    body.extend(be(2)); // START
    body.extend(be(1));
    body.extend(be(256));
    body.extend(vec![0x61u8; 256]);
    match Control::decode_body(body) {
        Ok(Control::Start(ControlData::Field(ControlField::ContentType(ct)))) => {
            assert_eq!(ct.len(), 256);
        }
        other => panic!("expected START with a 256-byte content type, got {:?}", other),
    }
}

#[test]
fn test_content_type_over_cap() {
    // A CONTENT_TYPE body of 257 bytes is a format error.
    let mut body = Vec::new();
    body.extend(be(2)); // START
    body.extend(be(1));
    body.extend(be(257));
    body.extend(vec![0x61u8; 257]);
    assert_eq!(Control::decode_body(body), Err(Error::FrameFormat));
}

#[test]
fn test_control_body_at_cap() {
    // A control body of exactly 512 bytes is accepted: ACCEPT carrying a
    // 256-byte and a 236-byte content type.
    let mut b = Vec::new();
    b.extend(be(0));
    b.extend(be(512));
    b.extend(be(1)); // ACCEPT
    b.extend(be(1));
    b.extend(be(256));
    b.extend(vec![0x61u8; 256]);
    b.extend(be(1));
    b.extend(be(236));
    b.extend(vec![0x62u8; 236]);
    let mut src = Source::new(b);
    match src.read_frame() {
        Ok(Frame::Control(Control::Accept(data))) => {
            assert_eq!(data.size(), 508);
        }
        other => panic!("expected ACCEPT, got {:?}", other),
    }
}

#[test]
fn test_control_body_over_cap() {
    let mut b = Vec::new();
    b.extend(be(0));
    b.extend(be(513));
    b.extend(vec![0u8; 513]);
    b.extend(be(5)); // a data frame header after the skipped body
    b.extend(b"after".to_vec());
    let mut src = Source::new(b);
    assert_eq!(src.read_frame(), Err(Error::FrameFormat));
    // The declared body was consumed, so the stream stays aligned.
    assert_eq!(src.read_frame().unwrap(), Frame::Data(b"after".to_vec()));
}

#[test]
fn test_control_body_under_type_size() {
    let mut b = Vec::new();
    b.extend(be(0));
    b.extend(be(3));
    b.extend(vec![0u8; 3]);
    let mut src = Source::new(b);
    assert_eq!(src.read_frame(), Err(Error::FrameFormat));
}

#[test]
fn test_unknown_field_tag_skipped() {
    // ACCEPT with an unknown field before a CONTENT_TYPE one: the unknown
    // body is skipped and decoding continues.
    let mut body = Vec::new();
    body.extend(be(1)); // ACCEPT
    body.extend(be(0x99));
    body.extend(be(3));
    body.extend(b"xyz".to_vec());
    body.extend(be(1));
    body.extend(be(1));
    body.extend(b"A".to_vec());
    match Control::decode_body(body) {
        Ok(Control::Accept(data)) => {
            let fields = data.into_fields();
            assert_eq!(fields.len(), 2);
            assert_eq!(fields[0], ControlField::Unknown { tag: 0x99, len: 3 });
            assert_eq!(fields[1], ct_field(b"A"));
        }
        other => panic!("expected ACCEPT, got {:?}", other),
    }
}

#[test]
fn test_unknown_control_type() {
    let mut body = Vec::new();
    body.extend(be(0x42));
    body.extend(b"junk".to_vec());
    assert_eq!(Control::decode_body(body), Err(Error::FrameFormat));
}

#[test]
fn test_stop_with_nonempty_body() {
    let mut body = Vec::new();
    body.extend(be(3)); // STOP
    body.extend(b"x".to_vec());
    assert_eq!(Control::decode_body(body), Err(Error::FrameFormat));
}

#[test]
fn test_field_overrunning_body() {
    // A field declaring more bytes than the body holds.
    let mut body = Vec::new();
    body.extend(be(1)); // ACCEPT
    body.extend(be(1));
    body.extend(be(200)); // declares 200 bytes, none follow
    assert_eq!(Control::decode_body(body), Err(Error::FrameFormat));
}

#[test]
fn test_truncated_header() {
    let mut src = Source::new(vec![0, 0]);
    assert_eq!(src.read_frame(), Err(Error::Truncated));
}

#[test]
fn test_truncated_control_body() {
    let mut b = Vec::new();
    b.extend(be(0));
    b.extend(be(20));
    b.extend(be(2)); // only 4 of the declared 20 bytes arrive
    let mut src = Source::new(b);
    assert_eq!(src.read_frame(), Err(Error::Truncated));
}

#[test]
fn test_data_filter() {
    let data = ControlData::from_fields(vec![
        ct_field(b"keep"),
        ControlField::Unknown { tag: 7, len: 0 },
        ct_field(b"drop"),
        ct_field(b"keep"),
    ]);
    let allowed = vec![ContentType::new(b"keep".to_vec())];
    let kept = data.filter(&allowed);
    assert_eq!(
        kept,
        ControlData::from_fields(vec![ct_field(b"keep"), ct_field(b"keep")])
    );
    assert_eq!(data.filter(&Vec::new()), ControlData::Empty);
}

#[test]
fn test_writer_primitives() {
    let mut out = Vec::new();
    write_frame_value(&mut out, 0x01020304);
    assert_eq!(out, vec![1, 2, 3, 4]);
    write_frame_len(&mut out, 5);
    write_frame_data(&mut out, &b"hello".to_vec());
    write_frame_header(&mut out, FrameHeader::ControlHeader);
    write_frame_header(&mut out, FrameHeader::Length(7));
    let mut expected = vec![1, 2, 3, 4];
    expected.extend(be(5));
    expected.extend(b"hello".to_vec());
    expected.extend(be(0));
    expected.extend(be(7));
    assert_eq!(out, expected);
}

#[test]
fn test_session_finish_from_accepted() {
    let mut session = Session::new(vec![ContentType::new(b"A".to_vec())]);
    session
        .accept(ControlData::Field(ControlField::ContentType(ContentType::new(b"A".to_vec()))))
        .unwrap();
    assert_eq!(session.current_phase(), Phase::Accepted);
    assert_eq!(session.finish().unwrap(), Control::Finish);
    assert_eq!(session.current_phase(), Phase::Finished);
}
