//! Whole-stream scenarios: the uni- and bi-directional handshakes and the
//! data phase, over literal wire bytes.

use fstrm::control::ContentType;
use fstrm::reader::bi_directional;
use fstrm::reader::uni_directional;
use fstrm::reader::Builder;
use fstrm::reader::Source;
use fstrm::Error;

fn be(v: u32) -> Vec<u8> {
    v.to_be_bytes().to_vec()
}

#[test]
fn test_unidirectional_reader() {
    let bytes: [u8; 65] = [
        0, 0, 0, 0, 0, 0, 0, 29, // control frame, length 29
        0, 0, 0, 2, // control type: START
        0, 0, 0, 1, // field type: content type
        0, 0, 0, 17, // field length 17
        116, 101, 115, 116, 45, 99, 111, 110, 116, 101, 110, 116, 45, 116, 121, 112,
        101, // "test-content-type"
        0, 0, 0, 12, // data frame, length 12
        116, 101, 115, 116, 45, 99, 111, 110, 116, 101, 110, 116, // "test-content"
        0, 0, 0, 0, 0, 0, 0, 4, // control frame, length 4
        0, 0, 0, 3, // control type: STOP
    ];

    let content_type = ContentType::new(b"test-content-type".to_vec());
    let content_types = vec![content_type.clone()];

    let builder = Builder::new(Source::new(bytes.to_vec()), content_types);
    let mut reader = uni_directional::build(builder).unwrap();

    assert_eq!(reader.content_type_ref(), Some(&content_type));

    assert_eq!(reader.next().unwrap().unwrap(), b"test-content".to_vec());

    assert!(reader.next().is_none());
}

/// The bytes of the uni-directional happy path: `START` naming
/// "test-content-type", one data frame "test-content", then `STOP`.
fn happy_path_bytes() -> Vec<u8> {
    let mut b = Vec::new();
    b.extend(be(0));
    b.extend(be(29));
    b.extend(be(2));
    b.extend(be(1));
    b.extend(be(17));
    b.extend(b"test-content-type".to_vec());
    b.extend(be(12));
    b.extend(b"test-content".to_vec());
    b.extend(be(0));
    b.extend(be(4));
    b.extend(be(3));
    b
}

#[test]
fn test_happy_path_clean_end() {
    let allowed = vec![ContentType::new(b"test-content-type".to_vec())];
    let builder = Builder::new(Source::new(happy_path_bytes()), allowed);
    let mut reader = uni_directional::build(builder).unwrap();
    assert_eq!(reader.content_type_ref().unwrap().ref_body(), b"test-content-type");
    assert_eq!(reader.next().unwrap().unwrap(), b"test-content".to_vec());
    assert!(reader.next().is_none());
    assert!(reader.next().is_none());
}

#[test]
fn test_content_type_mismatch() {
    let allowed = vec![ContentType::new(b"other".to_vec())];
    let builder = Builder::new(Source::new(happy_path_bytes()), allowed);
    match uni_directional::build(builder) {
        Err(Error::ContentTypeMismatch) => {}
        _ => panic!("expected a content-type mismatch"),
    }
}

#[test]
fn test_start_with_no_content_type() {
    let mut b = Vec::new();
    b.extend(be(0));
    b.extend(be(4));
    b.extend(be(2)); // START with empty body
    b.extend(be(5));
    b.extend(b"hello".to_vec());
    b.extend(be(0));
    b.extend(be(4));
    b.extend(be(3)); // STOP

    let builder = Builder::new(Source::new(b), Vec::new());
    let mut reader = uni_directional::build(builder).unwrap();
    assert!(reader.content_type_ref().is_none());
    assert_eq!(reader.next().unwrap().unwrap(), b"hello".to_vec());
    assert!(reader.next().is_none());
}

#[test]
fn test_oversized_control_frame() {
    let mut b = Vec::new();
    b.extend(be(0));
    b.extend(be(0x201)); // declared control body of 513 bytes
    let mut src = Source::new(b);
    match src.read_frame() {
        Err(Error::FrameFormat) => {}
        _ => panic!("expected a frame-format error"),
    }
}

#[test]
fn test_truncated_data_payload() {
    let mut b = Vec::new();
    b.extend(be(0x0A)); // data frame of 10 bytes
    b.extend(b"hello".to_vec()); // only 5 arrive
    let mut src = Source::new(b);
    match src.read_frame() {
        Err(Error::Truncated) => {}
        _ => panic!("expected a truncation error"),
    }
}

#[test]
fn test_bidirectional_handshake() {
    // READY offering "A" and "B".
    let mut b = Vec::new();
    b.extend(be(0));
    b.extend(be(22));
    b.extend(be(4)); // READY
    b.extend(be(1));
    b.extend(be(1));
    b.extend(b"A".to_vec());
    b.extend(be(1));
    b.extend(be(1));
    b.extend(b"B".to_vec());
    // START naming "B".
    b.extend(be(0));
    b.extend(be(13));
    b.extend(be(2)); // START
    b.extend(be(1));
    b.extend(be(1));
    b.extend(b"B".to_vec());

    let allowed = vec![ContentType::new(b"B".to_vec()), ContentType::new(b"C".to_vec())];
    let builder = Builder::new(Source::new(b), allowed);
    let reader = bi_directional::build(builder).unwrap();
    assert!(matches!(&reader, bi_directional::Reader::BiDirectional(..)));
    assert_eq!(reader.content_type_ref().unwrap().ref_body(), b"B");

    let (_, written) = reader.finish();
    // ACCEPT carrying exactly the negotiated "B", then FINISH.
    let mut expected = Vec::new();
    expected.extend(be(0));
    expected.extend(be(13));
    expected.extend(be(1)); // ACCEPT
    expected.extend(be(1));
    expected.extend(be(1));
    expected.extend(b"B".to_vec());
    expected.extend(be(0));
    expected.extend(be(4));
    expected.extend(be(5)); // FINISH
    assert_eq!(written, expected);
}

#[test]
fn test_bidirectional_empty_negotiation() {
    // READY offering only "A" against a local list without it.
    let mut b = Vec::new();
    b.extend(be(0));
    b.extend(be(13));
    b.extend(be(4)); // READY
    b.extend(be(1));
    b.extend(be(1));
    b.extend(b"A".to_vec());

    let allowed = vec![ContentType::new(b"B".to_vec())];
    let builder = Builder::new(Source::new(b), allowed);
    match bi_directional::build(builder) {
        Err(Error::ContentTypeMismatch) => {}
        _ => panic!("expected a content-type mismatch"),
    }
}

#[test]
fn test_bidirectional_falls_back_to_unidirectional() {
    let allowed = vec![ContentType::new(b"test-content-type".to_vec())];
    let builder = Builder::new(Source::new(happy_path_bytes()), allowed);
    let mut reader = bi_directional::build(builder).unwrap();
    assert!(matches!(&reader, bi_directional::Reader::UniDirectional(..)));
    assert_eq!(reader.next().unwrap().unwrap(), b"test-content".to_vec());
    assert!(reader.next().is_none());
    let (_, written) = reader.finish();
    assert!(written.is_empty());
}

#[test]
fn test_unexpected_control_in_data_phase() {
    let mut b = Vec::new();
    b.extend(be(0));
    b.extend(be(4));
    b.extend(be(2)); // START with empty body
    b.extend(be(0));
    b.extend(be(4));
    b.extend(be(4)); // READY where data was due
    let builder = Builder::new(Source::new(b), Vec::new());
    let mut reader = uni_directional::build(builder).unwrap();
    match reader.next() {
        Some(Err(Error::UnexpectedControl)) => {}
        _ => panic!("expected an unexpected-control error"),
    }
}

#[test]
fn test_build_on_data_frame() {
    let mut b = Vec::new();
    b.extend(be(3));
    b.extend(b"abc".to_vec());
    let builder = Builder::new(Source::new(b), Vec::new());
    match uni_directional::build(builder) {
        Err(Error::UnexpectedControl) => {}
        _ => panic!("expected an unexpected-control error"),
    }
}

#[test]
fn test_finish_arriving_ends_stream() {
    let mut b = Vec::new();
    b.extend(be(0));
    b.extend(be(4));
    b.extend(be(2)); // START with empty body
    b.extend(be(0));
    b.extend(be(4));
    b.extend(be(5)); // FINISH read in the data phase ends it cleanly
    let builder = Builder::new(Source::new(b), Vec::new());
    let mut reader = uni_directional::build(builder).unwrap();
    assert!(reader.next().is_none());
}
