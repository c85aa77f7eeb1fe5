//! The kinds of failure that the control plane tells apart, and what is done
//! about each.

use vstd::prelude::*;

verus! {

/// What went wrong.
#[derive(Clone, Copy, Debug, PartialEq, Eq, Structural)]
pub enum ErrorKind {
    /// A non-blocking operation had nothing to do yet.
    WouldBlock,
    /// A system call was interrupted before it did anything.
    Interrupted,
    /// The peer closed its end of the stream.
    PeerClosed,
    /// A request header announced more bytes than a request may have.
    OversizedRequest,
    /// A response header announced more bytes than a response may have.
    OversizedResponse,
    /// Fewer bytes arrived than the header announced.
    FramingError,
    /// A descriptor number that cannot name an open descriptor.
    InvalidFd,
    /// The privileged helper could not be started.
    HelperSpawn,
    /// The privileged helper exited or closed one of its pipes.
    HelperGone,
    /// Closing a connection reported an error.
    CloseHookFailed,
}

/// The link on which a failure was seen.
#[derive(Clone, Copy, Debug, PartialEq, Eq, Structural)]
pub enum Link {
    /// A stream to a local client.
    Client,
    /// The pipes to the privileged helper.
    Helper,
}

/// What is done about a failure.
#[derive(Clone, Copy, Debug, PartialEq, Eq, Structural)]
pub enum Disposition {
    /// Give control back to the scheduler and come back on readiness.
    Yield,
    /// Repeat the operation at once.
    Retry,
    /// Close the one connection on which the failure was seen.
    CloseConnection,
    /// Hand the error to the caller, which is still starting up.
    Propagate,
    /// End the process with a non-zero exit code.
    Fatal,
    /// Write it to the log and go on.
    LogAndContinue,
}

/// The disposition that belongs to a kind of failure on a link.
pub open spec fn spec_disposition(kind: ErrorKind, link: Link) -> Disposition {
    match kind {
        ErrorKind::WouldBlock => Disposition::Yield,
        ErrorKind::Interrupted => Disposition::Retry,
        ErrorKind::PeerClosed
        | ErrorKind::OversizedRequest
        | ErrorKind::OversizedResponse
        | ErrorKind::FramingError => if link == Link::Helper {
            Disposition::Fatal
        } else {
            Disposition::CloseConnection
        },
        ErrorKind::InvalidFd => Disposition::Propagate,
        ErrorKind::HelperSpawn | ErrorKind::HelperGone => Disposition::Fatal,
        ErrorKind::CloseHookFailed => Disposition::LogAndContinue,
    }
}

/// Decides what is done about a failure of the given kind on the given link.
///
/// Failures of a client stream never end the process; every failure of the
/// helper link that is not recovered locally does.
pub fn disposition(kind: ErrorKind, link: Link) -> (d: Disposition)
    ensures
        d == spec_disposition(kind, link),
        link == Link::Client && d == Disposition::Fatal ==> kind == ErrorKind::HelperSpawn || kind
            == ErrorKind::HelperGone,
{
    match kind {
        ErrorKind::WouldBlock => Disposition::Yield,
        ErrorKind::Interrupted => Disposition::Retry,
        ErrorKind::PeerClosed
        | ErrorKind::OversizedRequest
        | ErrorKind::OversizedResponse
        | ErrorKind::FramingError => match link {
            Link::Helper => Disposition::Fatal,
            Link::Client => Disposition::CloseConnection,
        },
        ErrorKind::InvalidFd => Disposition::Propagate,
        ErrorKind::HelperSpawn | ErrorKind::HelperGone => Disposition::Fatal,
        ErrorKind::CloseHookFailed => Disposition::LogAndContinue,
    }
}

} // verus!
