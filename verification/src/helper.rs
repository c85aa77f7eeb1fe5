//! The privileged helper's end of the wire: it reads request frames from its
//! standard input and writes one response frame for each to its standard
//! output.

use crate::codec::{decode_len, encode_frame, frame_of, le_value, Direction, FrameLimits};
use crate::fd::StdioError;
use vstd::prelude::*;

verus! {

/// Why the privileged helper gave up.
#[derive(Clone, Copy, Debug, PartialEq, Eq, Structural)]
pub enum BrokerAppError {
    /// Reading a request or writing a response failed.
    IoError(StdioError),
    /// The connection to WireGuard could not be made.
    WgConnectError,
    /// WireGuard refused the pre-shared key.
    WgSetPskError,
    /// A request header announced this many bytes, more than a request may
    /// have: something about the request is fatally wrong.
    OversizedMessage(u64),
}

/// Reads a request header on the helper's side: the number of payload bytes
/// to read next, or the error that ends the helper where the header
/// announces more than a request may have.
pub fn request_len(header: &[u8; 8], limits: &FrameLimits) -> (len: Result<usize, BrokerAppError>)
    ensures
        le_value(header@) <= limits.request_max ==> len == Ok::<usize, BrokerAppError>(
            le_value(header@) as usize,
        ),
        le_value(header@) > limits.request_max ==> len == Err::<usize, BrokerAppError>(
            BrokerAppError::OversizedMessage(le_value(header@) as u64),
        ),
{
    let declared: u64 = decode_len(header);
    match limits.check_len(Direction::Request, declared) {
        Ok(len) => Ok(len),
        Err(_) => Err(BrokerAppError::OversizedMessage(declared)),
    }
}

/// Frames a response on the helper's side.
pub fn response_frame(response: &[u8]) -> (frame: Vec<u8>)
    ensures
        frame@ == frame_of(response@),
{
    encode_frame(response)
}

} // verus!
