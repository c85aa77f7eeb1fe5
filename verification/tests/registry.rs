use rosenpass_control::codec::FrameLimits;
use rosenpass_control::manager::MioManagerIoSource;
use rosenpass_control::registry::{
    AppServer, AppServerIoSource, MioTokenDispenser, RegistryError, Token,
};

fn server() -> AppServer {
    AppServer::new(FrameLimits::new(16, 16))
}

fn listener(idx: usize) -> AppServerIoSource {
    AppServerIoSource::MioManager(MioManagerIoSource::Listener(idx))
}

#[test]
fn dispenser_counts_up_from_zero() {
    let mut dispenser = MioTokenDispenser::new();
    assert_eq!(dispenser.dispense(), Some(Token(0)));
    assert_eq!(dispenser.dispense(), Some(Token(1)));
    assert_eq!(dispenser.dispense(), Some(Token(2)));
}

#[test]
fn tokens_are_never_handed_out_twice() {
    let mut server = server();
    let mut seen = Vec::new();
    for _ in 0..100 {
        let token = server.dispense_token().unwrap();
        assert!(!seen.contains(&token));
        seen.push(token);
    }
}

#[test]
fn token_is_not_reused_after_unregister() {
    let mut server = server();
    let first = server.dispense_token().unwrap();
    assert_eq!(server.register_io_source(first, listener(0)), Ok(()));
    assert_eq!(server.unregister_io_source(first), Some(listener(0)));
    let second = server.dispense_token().unwrap();
    assert_ne!(first, second);
}

#[test]
fn token_serves_once() {
    let mut server = server();
    let token = server.dispense_token().unwrap();
    assert_eq!(server.register_io_source(token, listener(0)), Ok(()));
    assert_eq!(server.unregister_io_source(token), Some(listener(0)));
    assert_eq!(
        server.register_io_source(token, listener(0)),
        Err(RegistryError::TokenRetired)
    );
    assert_eq!(
        server.register_io_source(Token(token.0), listener(1)),
        Err(RegistryError::TokenRetired)
    );
    assert_eq!(server.io_source(token), None);
    let next = server.dispense_token().unwrap();
    assert_eq!(server.register_io_source(next, listener(0)), Ok(()));
}

#[test]
fn tokens_may_be_registered_out_of_order() {
    let mut server = server();
    let a = server.dispense_token().unwrap();
    let b = server.dispense_token().unwrap();
    let c = server.dispense_token().unwrap();
    assert_eq!(server.register_io_source(c, listener(0)), Ok(()));
    assert_eq!(server.register_io_source(a, listener(1)), Ok(()));
    assert_eq!(server.register_io_source(b, listener(2)), Ok(()));
    assert_eq!(server.io_source(a), Some(listener(1)));
}

#[test]
fn registered_token_finds_its_source() {
    let mut server = server();
    let token = server.dispense_token().unwrap();
    assert_eq!(server.io_source(token), None);
    assert_eq!(server.register_io_source(token, listener(3)), Ok(()));
    assert_eq!(server.io_source(token), Some(listener(3)));
}

#[test]
fn token_that_was_not_handed_out_is_refused() {
    let mut server = server();
    assert_eq!(
        server.register_io_source(Token(0), listener(0)),
        Err(RegistryError::UnknownToken)
    );
    let _ = server.dispense_token();
    assert_eq!(
        server.register_io_source(Token(1), listener(0)),
        Err(RegistryError::UnknownToken)
    );
    assert_eq!(server.io_source(Token(1)), None);
}

#[test]
fn token_in_use_is_refused() {
    let mut server = server();
    let token = server.dispense_token().unwrap();
    assert_eq!(server.register_io_source(token, listener(0)), Ok(()));
    assert_eq!(
        server.register_io_source(token, listener(1)),
        Err(RegistryError::TokenInUse)
    );
    assert_eq!(server.io_source(token), Some(listener(0)));
}

#[test]
fn unregistered_token_finds_nothing() {
    let mut server = server();
    let token = server.dispense_token().unwrap();
    assert_eq!(server.register_io_source(token, listener(0)), Ok(()));
    assert_eq!(server.unregister_io_source(token), Some(listener(0)));
    assert_eq!(server.io_source(token), None);
    assert_eq!(server.unregister_io_source(token), None);
}

#[test]
fn server_keeps_its_limits() {
    assert_eq!(server().limits(), FrameLimits::new(16, 16));
}
