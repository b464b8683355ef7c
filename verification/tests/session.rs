use pubsub_broker::protocol::{Frame, MessageType};
use pubsub_broker::session::{reader_step, writer_should_close, ReaderAction, SessionEvent, SessionState};

#[test]
fn short_read_synthesizes_a_quit_and_stops_the_reader() {
    let buf = [0u8; 1024];
    match reader_step(&buf, 1, 7) {
        ReaderAction::Forward { frame, last } => {
            assert_eq!(frame.0, MessageType::QUIT);
            assert_eq!(frame.1, b"".to_vec());
            assert_eq!(frame.2, None);
            assert_eq!(frame.3, 7);
            assert!(last);
        }
        ReaderAction::Ignore { .. } => panic!("a short read must forward a quit"),
    }
}

#[test]
fn a_line_is_decoded_without_its_terminator() {
    let mut buf = [0u8; 1024];
    buf[..13].copy_from_slice(b"SUB weather\r\n");
    match reader_step(&buf, 13, 5) {
        ReaderAction::Forward { frame, last } => {
            assert_eq!(frame.0, MessageType::SUB);
            assert_eq!(frame.1, b"weather".to_vec());
            assert_eq!(frame.3, 5);
            assert!(!last);
        }
        ReaderAction::Ignore { .. } => panic!("a well-formed line must be forwarded"),
    }
}

#[test]
fn a_quit_line_is_forwarded_and_stops_the_reader() {
    let mut buf = [0u8; 1024];
    buf[..6].copy_from_slice(b"QUIT\r\n");
    match reader_step(&buf, 6, 5) {
        ReaderAction::Forward { frame, last } => {
            assert_eq!(frame.0, MessageType::QUIT);
            assert!(last);
        }
        ReaderAction::Ignore { .. } => panic!("a quit line must be forwarded"),
    }
}

#[test]
fn a_malformed_line_is_dropped_not_fatal() {
    let mut buf = [0u8; 1024];
    buf[..9].copy_from_slice(b"FOO bar\r\n");
    match reader_step(&buf, 9, 5) {
        ReaderAction::Ignore { error } => {
            assert_eq!(error.details(), "Unknown message type");
        }
        ReaderAction::Forward { .. } => panic!("a malformed line must be dropped"),
    }
}

#[test]
fn the_writer_closes_exactly_on_the_quit_reply() {
    assert!(writer_should_close(&Frame(MessageType::QUIT, b"".to_vec(), None, 1)));
    assert!(!writer_should_close(&Frame(
        MessageType::OK,
        b"t".to_vec(),
        Some(b"Publish".to_vec()),
        1
    )));
    assert!(!writer_should_close(&Frame(
        MessageType::UPDATE,
        b"t".to_vec(),
        Some(b"c".to_vec()),
        1
    )));
}

#[test]
fn the_session_state_machine_follows_the_lifecycle() {
    let s = SessionState::Connected;
    assert_eq!(s.step(SessionEvent::Traffic), SessionState::Connected);
    let closing = s.step(SessionEvent::Disconnect);
    assert_eq!(closing, SessionState::Closing);
    let closed = closing.step(SessionEvent::QuitWritten);
    assert_eq!(closed, SessionState::Closed);

    // Anything else leaves the state alone; Closed is terminal.
    assert_eq!(closing.step(SessionEvent::Traffic), SessionState::Closing);
    assert_eq!(s.step(SessionEvent::QuitWritten), SessionState::Connected);
    assert_eq!(closed.step(SessionEvent::Traffic), SessionState::Closed);
    assert_eq!(closed.step(SessionEvent::Disconnect), SessionState::Closed);
    assert_eq!(closed.step(SessionEvent::QuitWritten), SessionState::Closed);
}
