use rosenpass_control::error::{disposition, Disposition, ErrorKind, Link};

#[test]
fn would_block_yields() {
    assert_eq!(disposition(ErrorKind::WouldBlock, Link::Client), Disposition::Yield);
    assert_eq!(disposition(ErrorKind::WouldBlock, Link::Helper), Disposition::Yield);
}

#[test]
fn interrupted_retries() {
    assert_eq!(disposition(ErrorKind::Interrupted, Link::Client), Disposition::Retry);
    assert_eq!(disposition(ErrorKind::Interrupted, Link::Helper), Disposition::Retry);
}

#[test]
fn client_failures_close_one_connection() {
    for kind in [
        ErrorKind::PeerClosed,
        ErrorKind::OversizedRequest,
        ErrorKind::OversizedResponse,
        ErrorKind::FramingError,
    ] {
        assert_eq!(disposition(kind, Link::Client), Disposition::CloseConnection);
    }
}

#[test]
fn helper_link_failures_are_fatal() {
    for kind in [
        ErrorKind::PeerClosed,
        ErrorKind::OversizedRequest,
        ErrorKind::OversizedResponse,
        ErrorKind::FramingError,
        ErrorKind::HelperSpawn,
        ErrorKind::HelperGone,
    ] {
        assert_eq!(disposition(kind, Link::Helper), Disposition::Fatal);
    }
}

#[test]
fn loss_of_the_helper_is_fatal_everywhere() {
    assert_eq!(disposition(ErrorKind::HelperSpawn, Link::Client), Disposition::Fatal);
    assert_eq!(disposition(ErrorKind::HelperGone, Link::Client), Disposition::Fatal);
}

#[test]
fn invalid_fd_is_propagated() {
    assert_eq!(disposition(ErrorKind::InvalidFd, Link::Client), Disposition::Propagate);
    assert_eq!(disposition(ErrorKind::InvalidFd, Link::Helper), Disposition::Propagate);
}

#[test]
fn close_hook_failure_is_logged() {
    assert_eq!(
        disposition(ErrorKind::CloseHookFailed, Link::Client),
        Disposition::LogAndContinue
    );
}
