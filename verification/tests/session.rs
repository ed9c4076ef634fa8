//! The session state machine on its own: which operation each phase
//! admits, and what negotiation computes.

use fstrm::control::ContentType;
use fstrm::session::negotiate;
use fstrm::session::Phase;
use fstrm::session::Session;
use fstrm::Control;
use fstrm::ControlData;
use fstrm::ControlField;
use fstrm::Error;
use fstrm::Frame;

fn ct(body: &[u8]) -> ContentType {
    ContentType::new(body.to_vec())
}

fn ct_field(body: &[u8]) -> ControlField {
    ControlField::ContentType(ct(body))
}

#[test]
fn test_session_lifecycle() {
    let mut session = Session::new(vec![ct(b"B"), ct(b"C")]);
    assert_eq!(session.current_phase(), Phase::Ready);

    let ready = ControlData::from_fields(vec![ct_field(b"A"), ct_field(b"B")]);
    let accept = session.accept(ready).unwrap();
    assert_eq!(accept, Control::Accept(ControlData::Field(ct_field(b"B"))));
    assert_eq!(session.current_phase(), Phase::Accepted);

    session.start(ControlData::Field(ct_field(b"B"))).unwrap();
    assert_eq!(session.current_phase(), Phase::Started);
    assert_eq!(session.content_type_ref().unwrap().ref_body(), b"B");

    let payload = session.read_frame(Frame::Data(b"p".to_vec())).unwrap();
    assert_eq!(payload, Some(b"p".to_vec()));

    let finish = session.finish().unwrap();
    assert_eq!(finish, Control::Finish);
    assert_eq!(session.current_phase(), Phase::Finished);
}

#[test]
fn test_session_refuses_out_of_phase_operations() {
    let mut session = Session::new(Vec::new());
    assert_eq!(session.finish(), Err(Error::UnexpectedControl));
    assert_eq!(
        session.read_frame(Frame::Data(b"p".to_vec())),
        Err(Error::UnexpectedControl)
    );
    session.start(ControlData::Empty).unwrap();
    assert_eq!(session.accept(ControlData::Empty), Err(Error::UnexpectedControl));
    assert_eq!(session.start(ControlData::Empty), Err(Error::UnexpectedControl));
}

#[test]
fn test_session_start_outside_negotiated_set() {
    let mut session = Session::new(vec![ct(b"A"), ct(b"B")]);
    let ready = ControlData::Field(ct_field(b"A"));
    session.accept(ready).unwrap();
    assert_eq!(
        session.start(ControlData::Field(ct_field(b"B"))),
        Err(Error::ContentTypeMismatch)
    );
    assert_eq!(session.current_phase(), Phase::Accepted);
}

#[test]
fn test_session_stop_ends_stream() {
    let mut session = Session::new(Vec::new());
    session.start(ControlData::Empty).unwrap();
    assert_eq!(session.read_frame(Frame::Control(Control::Stop)).unwrap(), None);
    assert_eq!(session.current_phase(), Phase::Stopped);
}

#[test]
fn test_session_unexpected_control_in_data_phase() {
    let mut session = Session::new(Vec::new());
    session.start(ControlData::Empty).unwrap();
    assert_eq!(
        session.read_frame(Frame::Control(Control::Ready(ControlData::Empty))),
        Err(Error::UnexpectedControl)
    );
    assert_eq!(session.current_phase(), Phase::Started);
}

#[test]
fn test_session_start_with_zero_fields() {
    let mut session = Session::new(vec![ct(b"A")]);
    session.start(ControlData::Empty).unwrap();
    assert_eq!(session.current_phase(), Phase::Started);
    assert!(session.content_type_ref().is_none());
}

#[test]
fn test_negotiate_keeps_offer_order_and_drops_repeats() {
    let offered = ControlData::from_fields(vec![
        ct_field(b"A"),
        ct_field(b"A"),
        ct_field(b"B"),
        ControlField::Unknown { tag: 9, len: 0 },
        ct_field(b"C"),
    ]);
    let negotiated = negotiate(&Vec::new(), &offered);
    assert_eq!(negotiated, vec![ct(b"A"), ct(b"B"), ct(b"C")]);

    let local = vec![ct(b"C"), ct(b"A")];
    let negotiated = negotiate(&local, &offered);
    assert_eq!(negotiated, vec![ct(b"A"), ct(b"C")]);

    let local = vec![ct(b"X")];
    assert!(negotiate(&local, &offered).is_empty());
}

#[test]
fn test_empty_local_list_accepts_any_start() {
    let mut session = Session::new(Vec::new());
    session.start(ControlData::Field(ct_field(b"anything"))).unwrap();
    assert_eq!(session.content_type_ref().unwrap().ref_body(), b"anything");
}
