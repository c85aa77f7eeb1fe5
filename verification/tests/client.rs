use rosenpass_control::client::{
    select_entry_point, ClientSession, ConfigError, EntryPoint, SessionAction, SessionEvent,
    SessionState,
};
use rosenpass_control::codec::{encode_len, FrameLimits};
use rosenpass_control::error::ErrorKind;

fn session() -> ClientSession {
    ClientSession::new(FrameLimits::new(16, 4))
}

fn awaiting_reply(request: &[u8]) -> ClientSession {
    let mut session = session();
    let buffer = match session.step(SessionEvent::Header(encode_len(request.len() as u64))) {
        SessionAction::ReadBody { mut buffer } => {
            buffer.copy_from_slice(request);
            buffer
        }
        other => panic!("no body asked for: {:?}", other),
    };
    match session.step(SessionEvent::Body(buffer)) {
        SessionAction::Dispatch { request: got } => assert_eq!(got, request),
        other => panic!("not dispatched: {:?}", other),
    }
    session
}

#[test]
fn session_starts_by_reading_a_header() {
    let session = session();
    assert_eq!(session.state(), SessionState::ReadingLen);
    assert_eq!(session.limits(), FrameLimits::new(16, 4));
}

#[test]
fn session_asks_for_the_announced_payload() {
    let mut session = session();
    match session.step(SessionEvent::Header(encode_len(3))) {
        SessionAction::ReadBody { buffer } => assert_eq!(buffer, vec![0, 0, 0]),
        other => panic!("no body asked for: {:?}", other),
    }
    assert_eq!(session.state(), SessionState::ReadingBody(3));
}

#[test]
fn session_dispatches_the_payload() {
    let session = awaiting_reply(&[1, 2, 3]);
    assert_eq!(session.state(), SessionState::AwaitingReply);
}

#[test]
fn session_takes_an_empty_request() {
    let mut session = session();
    let buffer = match session.step(SessionEvent::Header(encode_len(0))) {
        SessionAction::ReadBody { buffer } => buffer,
        other => panic!("no body asked for: {:?}", other),
    };
    assert!(buffer.is_empty());
    assert!(matches!(
        session.step(SessionEvent::Body(buffer)),
        SessionAction::Dispatch { request } if request.is_empty()
    ));
}

#[test]
fn session_writes_the_reply_behind_a_fresh_header() {
    let mut session = awaiting_reply(&[1, 2, 3]);
    match session.step(SessionEvent::Reply(vec![9, 8])) {
        SessionAction::Write { header, response } => {
            assert_eq!(header, [2, 0, 0, 0, 0, 0, 0, 0]);
            assert_eq!(response, vec![9, 8]);
        }
        other => panic!("nothing written: {:?}", other),
    }
    assert_eq!(session.state(), SessionState::Writing);
}

#[test]
fn session_reads_the_next_request_after_the_response() {
    let mut session = awaiting_reply(&[1]);
    let _ = session.step(SessionEvent::Reply(vec![2]));
    assert!(matches!(
        session.step(SessionEvent::Written(vec![2])),
        SessionAction::ReadHeader
    ));
    assert_eq!(session.state(), SessionState::ReadingLen);
    match session.step(SessionEvent::Header(encode_len(2))) {
        SessionAction::ReadBody { buffer } => assert_eq!(buffer, vec![0, 0]),
        other => panic!("no body asked for: {:?}", other),
    }
}

#[test]
fn session_closes_on_an_oversized_request() {
    let mut session = session();
    assert!(matches!(
        session.step(SessionEvent::Header([0xff; 8])),
        SessionAction::Close { reason: ErrorKind::OversizedRequest }
    ));
    assert_eq!(session.state(), SessionState::Closed(ErrorKind::OversizedRequest));
    let mut session = ClientSession::new(FrameLimits::new(16, 4));
    assert!(matches!(
        session.step(SessionEvent::Header(encode_len(17))),
        SessionAction::Close { reason: ErrorKind::OversizedRequest }
    ));
}

#[test]
fn session_takes_a_request_of_the_largest_size() {
    let mut session = session();
    assert!(matches!(
        session.step(SessionEvent::Header(encode_len(16))),
        SessionAction::ReadBody { buffer } if buffer.len() == 16
    ));
}

#[test]
fn session_closes_on_a_short_payload() {
    let mut session = session();
    let _ = session.step(SessionEvent::Header(encode_len(3)));
    assert!(matches!(
        session.step(SessionEvent::Body(vec![1, 2])),
        SessionAction::Close { reason: ErrorKind::FramingError }
    ));
    assert_eq!(session.state(), SessionState::Closed(ErrorKind::FramingError));
}

#[test]
fn session_closes_when_the_peer_closes() {
    let mut session = session();
    assert!(matches!(
        session.step(SessionEvent::PeerClosed),
        SessionAction::Close { reason: ErrorKind::PeerClosed }
    ));
    let mut session = awaiting_reply(&[1]);
    assert!(matches!(
        session.step(SessionEvent::PeerClosed),
        SessionAction::Close { reason: ErrorKind::PeerClosed }
    ));
}

#[test]
fn session_closes_when_the_helper_is_gone() {
    let mut session = awaiting_reply(&[1]);
    assert!(matches!(
        session.step(SessionEvent::HelperGone),
        SessionAction::Close { reason: ErrorKind::HelperGone }
    ));
    assert_eq!(session.state(), SessionState::Closed(ErrorKind::HelperGone));
}

#[test]
fn session_closes_on_an_event_out_of_turn() {
    let mut session = session();
    assert!(matches!(
        session.step(SessionEvent::Reply(vec![1])),
        SessionAction::Close { reason: ErrorKind::FramingError }
    ));
    let mut session = awaiting_reply(&[1]);
    assert!(matches!(
        session.step(SessionEvent::Header(encode_len(1))),
        SessionAction::Close { reason: ErrorKind::FramingError }
    ));
}

#[test]
fn closed_session_stays_closed() {
    let mut session = session();
    let _ = session.step(SessionEvent::PeerClosed);
    for _ in 0..3 {
        assert!(matches!(
            session.step(SessionEvent::Header(encode_len(1))),
            SessionAction::Close { reason: ErrorKind::PeerClosed }
        ));
        assert!(matches!(
            session.step(SessionEvent::HelperGone),
            SessionAction::Close { reason: ErrorKind::PeerClosed }
        ));
    }
    assert_eq!(session.state(), SessionState::Closed(ErrorKind::PeerClosed));
}

#[test]
fn responses_answer_requests_in_order() {
    let mut session = session();
    for k in 0u8..5 {
        let buffer = match session.step(SessionEvent::Header(encode_len(1))) {
            SessionAction::ReadBody { mut buffer } => {
                buffer[0] = k;
                buffer
            }
            other => panic!("no body asked for: {:?}", other),
        };
        let request = match session.step(SessionEvent::Body(buffer)) {
            SessionAction::Dispatch { request } => request,
            other => panic!("not dispatched: {:?}", other),
        };
        assert_eq!(request, vec![k]);
        let response = match session.step(SessionEvent::Reply(vec![k, k])) {
            SessionAction::Write { header, response } => {
                assert_eq!(header, encode_len(2));
                response
            }
            other => panic!("nothing written: {:?}", other),
        };
        assert_eq!(response, vec![k, k]);
        assert!(matches!(
            session.step(SessionEvent::Written(response)),
            SessionAction::ReadHeader
        ));
    }
}

#[test]
fn one_entry_point_is_chosen() {
    assert!(matches!(
        select_entry_point(Some(String::from("/tmp/a")), None, None),
        Ok(EntryPoint::ListenPath(path)) if path == "/tmp/a"
    ));
    assert!(matches!(
        select_entry_point(None, Some(3), None),
        Ok(EntryPoint::ListenFd(3))
    ));
    assert!(matches!(
        select_entry_point(None, None, Some(4)),
        Ok(EntryPoint::StreamFd(4))
    ));
}

#[test]
fn no_entry_point_is_refused() {
    assert!(matches!(
        select_entry_point(None, None, None),
        Err(ConfigError::NoEntryPoint)
    ));
}

#[test]
fn several_entry_points_are_refused() {
    let path = || Some(String::from("/tmp/a"));
    assert!(matches!(
        select_entry_point(path(), Some(3), None),
        Err(ConfigError::ConflictingEntryPoints)
    ));
    assert!(matches!(
        select_entry_point(path(), None, Some(4)),
        Err(ConfigError::ConflictingEntryPoints)
    ));
    assert!(matches!(
        select_entry_point(None, Some(3), Some(4)),
        Err(ConfigError::ConflictingEntryPoints)
    ));
    assert!(matches!(
        select_entry_point(path(), Some(3), Some(4)),
        Err(ConfigError::ConflictingEntryPoints)
    ));
}
