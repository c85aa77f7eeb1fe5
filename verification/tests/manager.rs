use rosenpass_control::codec::{encode_frame, FrameLimits};
use rosenpass_control::connection::{ConnectionEvent, ConnectionState, MioConnection};
use rosenpass_control::error::ErrorKind;
use rosenpass_control::fd::Errno;
use rosenpass_control::manager::{
    AcceptEvent, ControlPlane, ManagerError, ManagerEvent, MioConnectionFocus, MioListener,
    MioManager, MioManagerContext, MioManagerIoSource, PollOutcome,
};
use rosenpass_control::registry::{AppServer, AppServerIoSource, RegistryError, Token};

fn plane() -> ControlPlane {
    ControlPlane::new(FrameLimits::new(16, 4))
}

fn listen(plane: &mut ControlPlane) -> usize {
    let listener = MioListener::new(plane.app_server_mut()).unwrap();
    plane.add_listener(listener).unwrap()
}

fn connect(plane: &mut ControlPlane) -> (usize, Token) {
    let connection = MioConnection::new(plane.app_server_mut()).unwrap();
    let token = connection.mio_token();
    (plane.add_connection(connection).unwrap(), token)
}

fn connection_source(idx: usize) -> Option<AppServerIoSource> {
    Some(AppServerIoSource::MioManager(MioManagerIoSource::Connection(idx)))
}

fn listener_source(idx: usize) -> Option<AppServerIoSource> {
    Some(AppServerIoSource::MioManager(MioManagerIoSource::Listener(idx)))
}

fn close(plane: &mut ControlPlane, idx: usize) -> Token {
    match plane.poll_particular_connection(idx, ConnectionEvent::PeerClosed) {
        Ok(PollOutcome::Closed { token, reason: ErrorKind::PeerClosed }) => token,
        other => panic!("not closed: {:?}", other),
    }
}

#[test]
fn new_manager_is_empty() {
    let manager = MioManager::new();
    assert_eq!(manager.listener_count(), 0);
    assert_eq!(manager.slot_count(), 0);
    assert_eq!(manager.listener_token(0), None);
    assert!(manager.connection(0).is_none());
    let manager = MioManager::default();
    assert_eq!(manager.listener_count(), 0);
    assert_eq!(manager.slot_count(), 0);
}

#[test]
fn listeners_get_indices_in_order() {
    let mut plane = plane();
    assert_eq!(listen(&mut plane), 0);
    assert_eq!(listen(&mut plane), 1);
    assert_eq!(listen(&mut plane), 2);
    assert_eq!(plane.mio_manager().listener_count(), 3);
    for idx in 0..3 {
        let token = plane.mio_manager().listener_token(idx).unwrap();
        assert_eq!(plane.app_server().io_source(token), listener_source(idx));
    }
}

#[test]
fn connection_token_names_a_connection() {
    let mut plane = plane();
    listen(&mut plane);
    let (idx, token) = connect(&mut plane);
    assert_eq!(idx, 0);
    assert_eq!(plane.app_server().io_source(token), connection_source(0));
    assert_eq!(plane.mio_manager().connection(0).unwrap().mio_token(), token);
}

#[test]
fn connections_fill_the_lowest_empty_slot() {
    let mut plane = plane();
    let (a, _) = connect(&mut plane);
    let (b, _) = connect(&mut plane);
    let (c, _) = connect(&mut plane);
    assert_eq!((a, b, c), (0, 1, 2));
    close(&mut plane, 1);
    let (d, token_d) = connect(&mut plane);
    assert_eq!(d, 1);
    assert_eq!(plane.app_server().io_source(token_d), connection_source(1));
    close(&mut plane, 0);
    close(&mut plane, 2);
    let (e, _) = connect(&mut plane);
    let (f, _) = connect(&mut plane);
    let (g, _) = connect(&mut plane);
    assert_eq!((e, f, g), (0, 2, 3));
    assert_eq!(plane.mio_manager().slot_count(), 4);
}

#[test]
fn adding_does_not_move_the_others() {
    let mut plane = plane();
    let mut tokens = Vec::new();
    for _ in 0..5 {
        tokens.push(connect(&mut plane).1);
    }
    close(&mut plane, 2);
    let (_, fresh) = connect(&mut plane);
    tokens[2] = fresh;
    for (idx, token) in tokens.iter().enumerate() {
        assert_eq!(plane.mio_manager().connection(idx).unwrap().mio_token(), *token);
        assert_eq!(plane.app_server().io_source(*token), connection_source(idx));
    }
}

#[test]
fn every_live_token_names_one_source() {
    let mut plane = plane();
    listen(&mut plane);
    listen(&mut plane);
    let mut live = Vec::new();
    let mut dead = Vec::new();
    for round in 0..20usize {
        let (idx, token) = connect(&mut plane);
        assert!(!live.contains(&(idx, token)));
        assert!(!dead.contains(&token));
        live.push((idx, token));
        if round % 3 == 2 {
            let (idx, token) = live.remove(round % live.len());
            assert_eq!(close(&mut plane, idx), token);
            dead.push(token);
        }
        for (idx, token) in &live {
            assert_eq!(plane.app_server().io_source(*token), connection_source(*idx));
            assert_eq!(plane.mio_manager().connection(*idx).unwrap().mio_token(), *token);
        }
        for token in &dead {
            assert_eq!(plane.app_server().io_source(*token), None);
        }
        for a in 0..live.len() {
            for b in 0..a {
                assert_ne!(live[a].0, live[b].0);
                assert_ne!(live[a].1, live[b].1);
            }
        }
    }
}

#[test]
fn connection_from_another_server_is_refused() {
    let mut plane = plane();
    let mut other = AppServer::new(FrameLimits::new(16, 4));
    let stranger = MioConnection::new(&mut other).unwrap();
    assert_eq!(
        plane.add_connection(stranger),
        Err(ManagerError::Registry(RegistryError::UnknownToken))
    );
    assert_eq!(plane.mio_manager().slot_count(), 0);
    let _ = connect(&mut plane);
    let mut other = AppServer::new(FrameLimits::new(16, 4));
    let twin = MioConnection::new(&mut other).unwrap();
    assert_eq!(
        plane.add_connection(twin),
        Err(ManagerError::Registry(RegistryError::TokenInUse))
    );
    assert_eq!(plane.mio_manager().slot_count(), 1);
    let listener = MioListener::new(&mut other).unwrap();
    assert_eq!(
        plane.add_listener(listener),
        Err(ManagerError::Registry(RegistryError::UnknownToken))
    );
    assert_eq!(plane.mio_manager().listener_count(), 0);
}

/// Walks one round without serving anything.
fn round(plane: &ControlPlane) -> Vec<MioManagerIoSource> {
    let mut served = Vec::new();
    let mut next = plane.poll(None);
    while let Some(source) = next {
        served.push(source);
        next = plane.poll(Some(source));
    }
    served
}

#[test]
fn round_serves_listeners_then_connections() {
    let mut plane = plane();
    listen(&mut plane);
    listen(&mut plane);
    connect(&mut plane);
    connect(&mut plane);
    connect(&mut plane);
    close(&mut plane, 1);
    assert_eq!(
        plane.accept_connections(),
        vec![MioManagerIoSource::Listener(0), MioManagerIoSource::Listener(1)]
    );
    assert_eq!(
        plane.poll_connections(),
        vec![MioManagerIoSource::Connection(0), MioManagerIoSource::Connection(2)]
    );
    assert_eq!(
        round(&plane),
        vec![
            MioManagerIoSource::Listener(0),
            MioManagerIoSource::Listener(1),
            MioManagerIoSource::Connection(0),
            MioManagerIoSource::Connection(2),
        ]
    );
}

#[test]
fn round_names_one_source_after_another() {
    let mut plane = plane();
    listen(&mut plane);
    listen(&mut plane);
    connect(&mut plane);
    connect(&mut plane);
    connect(&mut plane);
    close(&mut plane, 0);
    assert_eq!(plane.poll(None), Some(MioManagerIoSource::Listener(0)));
    assert_eq!(
        plane.poll(Some(MioManagerIoSource::Listener(0))),
        Some(MioManagerIoSource::Listener(1))
    );
    assert_eq!(
        plane.poll(Some(MioManagerIoSource::Listener(1))),
        Some(MioManagerIoSource::Connection(1))
    );
    assert_eq!(
        plane.poll(Some(MioManagerIoSource::Connection(1))),
        Some(MioManagerIoSource::Connection(2))
    );
    assert_eq!(plane.poll(Some(MioManagerIoSource::Connection(2))), None);
    assert_eq!(plane.poll(Some(MioManagerIoSource::Connection(7))), None);
    assert_eq!(plane.poll(Some(MioManagerIoSource::Connection(usize::MAX))), None);
    assert_eq!(
        plane.poll(Some(MioManagerIoSource::Listener(9))),
        Some(MioManagerIoSource::Connection(1))
    );
}

#[test]
fn round_steps_the_connections_accepted_in_it() {
    let mut plane = plane();
    let listener = listen(&mut plane);
    let first = plane.poll(None);
    assert_eq!(first, Some(MioManagerIoSource::Listener(listener)));
    let connection = MioConnection::new(plane.app_server_mut()).unwrap();
    assert!(matches!(
        plane.accept_from(listener, AcceptEvent::Accepted(connection)),
        Ok(PollOutcome::Accepted { index: 0 })
    ));
    assert!(matches!(
        plane.accept_from(listener, AcceptEvent::WouldBlock),
        Ok(PollOutcome::Yield)
    ));
    let second = plane.poll(first);
    assert_eq!(second, Some(MioManagerIoSource::Connection(0)));
    assert!(matches!(
        plane.poll_particular_connection(0, ConnectionEvent::Received(encode_frame(&[1]))),
        Ok(PollOutcome::Progress(received)) if received.request == Some(vec![1])
    ));
    assert_eq!(plane.poll(second), None);
}

#[test]
fn round_goes_on_behind_a_connection_that_closed() {
    let mut plane = plane();
    connect(&mut plane);
    connect(&mut plane);
    connect(&mut plane);
    let first = plane.poll(None);
    assert_eq!(first, Some(MioManagerIoSource::Connection(0)));
    close(&mut plane, 0);
    let second = plane.poll(first);
    assert_eq!(second, Some(MioManagerIoSource::Connection(1)));
    close(&mut plane, 1);
    let third = plane.poll(second);
    assert_eq!(third, Some(MioManagerIoSource::Connection(2)));
    assert_eq!(plane.poll(third), None);
}

#[test]
fn empty_manager_has_an_empty_round() {
    let plane = plane();
    assert_eq!(plane.poll(None), None);
    assert!(round(&plane).is_empty());
    assert!(plane.accept_connections().is_empty());
    assert!(plane.poll_connections().is_empty());
}

#[test]
fn token_that_has_served_is_refused() {
    let mut plane = plane();
    let (idx, token) = connect(&mut plane);
    assert_eq!(token, Token(0));
    close(&mut plane, idx);
    let mut other = AppServer::new(FrameLimits::new(16, 4));
    let twin = MioConnection::new(&mut other).unwrap();
    assert_eq!(twin.mio_token(), token);
    assert_eq!(
        plane.add_connection(twin),
        Err(ManagerError::Registry(RegistryError::TokenRetired))
    );
    assert!(plane.mio_manager().connection(idx).is_none());
    assert_eq!(plane.app_server().io_source(token), None);
    let twin = MioListener::new(&mut AppServer::new(FrameLimits::new(16, 4))).unwrap();
    assert_eq!(
        plane.add_listener(twin),
        Err(ManagerError::Registry(RegistryError::TokenRetired))
    );
    assert_eq!(plane.mio_manager().listener_count(), 0);
}

#[test]
fn accepting_adds_until_the_listener_is_not_ready() {
    let mut plane = plane();
    let listener = listen(&mut plane);
    for expected in 0..3usize {
        let connection = MioConnection::new(plane.app_server_mut()).unwrap();
        assert!(matches!(
            plane.accept_from(listener, AcceptEvent::Accepted(connection)),
            Ok(PollOutcome::Accepted { index }) if index == expected
        ));
    }
    assert!(matches!(
        plane.accept_from(listener, AcceptEvent::Interrupted),
        Ok(PollOutcome::Retry)
    ));
    assert!(matches!(
        plane.accept_from(listener, AcceptEvent::WouldBlock),
        Ok(PollOutcome::Yield)
    ));
    assert_eq!(plane.mio_manager().slot_count(), 3);
}

#[test]
fn accept_error_is_handed_on() {
    let mut plane = plane();
    let listener = listen(&mut plane);
    let errno = Errno::from_raw_os_error(24).unwrap();
    assert!(matches!(
        plane.accept_from(listener, AcceptEvent::Failed(errno)),
        Err(ManagerError::Io(e)) if e == errno
    ));
    assert_eq!(plane.mio_manager().slot_count(), 0);
}

#[test]
fn accept_from_an_unknown_listener_is_refused() {
    let mut plane = plane();
    assert!(matches!(
        plane.accept_from(0, AcceptEvent::WouldBlock),
        Err(ManagerError::UnknownListener)
    ));
    listen(&mut plane);
    let connection = MioConnection::new(plane.app_server_mut()).unwrap();
    assert!(matches!(
        plane.accept_from(1, AcceptEvent::Accepted(connection)),
        Err(ManagerError::UnknownListener)
    ));
    assert_eq!(plane.mio_manager().slot_count(), 0);
}

#[test]
fn step_hands_out_the_request() {
    let mut plane = plane();
    let (idx, _) = connect(&mut plane);
    match plane.poll_particular_connection(idx, ConnectionEvent::Received(encode_frame(&[1, 2])))
    {
        Ok(PollOutcome::Progress(received)) => {
            assert_eq!(received.consumed, 10);
            assert_eq!(received.request, Some(vec![1, 2]));
        }
        other => panic!("no progress: {:?}", other),
    }
    assert_eq!(
        plane.mio_manager().connection(idx).unwrap().state(),
        ConnectionState::Dispatched
    );
}

#[test]
fn closing_connection_is_removed_with_its_token() {
    let mut plane = plane();
    let (idx, token) = connect(&mut plane);
    assert!(matches!(
        plane.poll_particular_connection(idx, ConnectionEvent::Received(vec![0xff; 8])),
        Ok(PollOutcome::Closed { token: t, reason: ErrorKind::OversizedRequest }) if t == token
    ));
    assert!(plane.mio_manager().connection(idx).is_none());
    assert_eq!(plane.app_server().io_source(token), None);
    assert_eq!(plane.mio_manager().slot_count(), 1);
}

#[test]
fn event_for_an_empty_slot_is_dropped() {
    let mut plane = plane();
    assert!(matches!(
        plane.poll_particular_connection(0, ConnectionEvent::PeerClosed),
        Ok(PollOutcome::Ignored)
    ));
    let (idx, _) = connect(&mut plane);
    close(&mut plane, idx);
    assert!(matches!(
        plane.poll_particular_connection(idx, ConnectionEvent::Received(vec![1])),
        Ok(PollOutcome::Ignored)
    ));
    assert!(matches!(
        plane.poll_particular_connection(7, ConnectionEvent::WouldBlock),
        Ok(PollOutcome::Ignored)
    ));
}

#[test]
fn connection_error_is_handed_on_and_the_connection_stays() {
    let mut plane = plane();
    let (idx, token) = connect(&mut plane);
    let errno = Errno::from_raw_os_error(5).unwrap();
    assert!(matches!(
        plane.poll_particular_connection(idx, ConnectionEvent::Failed(errno)),
        Err(ManagerError::Io(e)) if e == errno
    ));
    assert_eq!(plane.mio_manager().connection(idx).unwrap().mio_token(), token);
    assert_eq!(plane.app_server().io_source(token), connection_source(idx));
}

#[test]
fn poll_particular_goes_by_the_source() {
    let mut plane = plane();
    let listener = listen(&mut plane);
    let connection = MioConnection::new(plane.app_server_mut()).unwrap();
    assert!(matches!(
        plane.poll_particular(
            MioManagerIoSource::Listener(listener),
            ManagerEvent::Accept(AcceptEvent::Accepted(connection))
        ),
        Ok(PollOutcome::Accepted { index: 0 })
    ));
    assert!(matches!(
        plane.poll_particular(
            MioManagerIoSource::Connection(0),
            ManagerEvent::Connection(ConnectionEvent::Received(encode_frame(&[5])))
        ),
        Ok(PollOutcome::Progress(received)) if received.request == Some(vec![5])
    ));
}

#[test]
fn event_of_the_wrong_kind_is_refused() {
    let mut plane = plane();
    let listener = listen(&mut plane);
    let (idx, token) = connect(&mut plane);
    assert!(matches!(
        plane.poll_particular(
            MioManagerIoSource::Listener(listener),
            ManagerEvent::Connection(ConnectionEvent::PeerClosed)
        ),
        Err(ManagerError::UnexpectedEvent)
    ));
    assert!(matches!(
        plane.poll_particular(
            MioManagerIoSource::Connection(idx),
            ManagerEvent::Accept(AcceptEvent::WouldBlock)
        ),
        Err(ManagerError::UnexpectedEvent)
    ));
    assert_eq!(plane.app_server().io_source(token), connection_source(idx));
}

#[test]
fn readiness_of_a_removed_token_is_dropped() {
    let mut plane = plane();
    let (idx, token) = connect(&mut plane);
    close(&mut plane, idx);
    assert!(matches!(
        plane.dispatch(token, ManagerEvent::Connection(ConnectionEvent::Received(vec![1]))),
        Ok(PollOutcome::Ignored)
    ));
    assert!(matches!(
        plane.dispatch(Token(99), ManagerEvent::Accept(AcceptEvent::WouldBlock)),
        Ok(PollOutcome::Ignored)
    ));
    let (again, fresh) = connect(&mut plane);
    assert_eq!(again, idx);
    assert_ne!(fresh, token);
    assert!(matches!(
        plane.dispatch(token, ManagerEvent::Connection(ConnectionEvent::PeerClosed)),
        Ok(PollOutcome::Ignored)
    ));
    assert!(plane.mio_manager().connection(again).is_some());
}

#[test]
fn readiness_goes_to_the_source_of_its_token() {
    let mut plane = plane();
    let listener = listen(&mut plane);
    let listener_token = plane.mio_manager().listener_token(listener).unwrap();
    let connection = MioConnection::new(plane.app_server_mut()).unwrap();
    let token = connection.mio_token();
    assert!(matches!(
        plane.dispatch(listener_token, ManagerEvent::Accept(AcceptEvent::Accepted(connection))),
        Ok(PollOutcome::Accepted { index: 0 })
    ));
    assert!(matches!(
        plane.dispatch(token, ManagerEvent::Connection(ConnectionEvent::PeerClosed)),
        Ok(PollOutcome::Closed { token: t, reason: ErrorKind::PeerClosed }) if t == token
    ));
}

#[test]
fn focus_steps_one_connection() {
    let mut plane = plane();
    connect(&mut plane);
    let (idx, token) = connect(&mut plane);
    let mut focus = MioConnectionFocus::new(&mut plane, idx);
    assert_eq!(focus.mio_connection().mio_token(), token);
    assert_eq!(focus.app_server().limits(), FrameLimits::new(16, 4));
    assert!(!focus.should_close());
    let received = focus.poll(ConnectionEvent::Received(encode_frame(&[4]))).unwrap();
    assert_eq!(received.request, Some(vec![4]));
    focus.mio_connection_mut().respond(vec![6]);
    assert_eq!(focus.mio_connection().state(), ConnectionState::WritingLen);
    let _ = focus.poll(ConnectionEvent::PeerClosed).unwrap();
    assert!(focus.should_close());
    let next = focus.app_server_mut().dispense_token();
    assert_eq!(next, Some(Token(2)));
    assert_eq!(
        plane.mio_manager().connection(0).unwrap().state(),
        ConnectionState::ReadingLen
    );
    assert!(plane.mio_manager().connection(idx).unwrap().should_close());
}
