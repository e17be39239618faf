//! The facade over the HTTP/3 layer: what a proxy asks of it.

use vstd::prelude::*;

pub use crate::h3::MAX_FIELD_SECTION_SIZE;
pub use crate::h3::connection::{Connection, DatagramReceiver};
pub use crate::h3::error::{Code, ConnectionError, StreamError};
pub use crate::h3::message::{FieldValue, Fields, Method, Request, Status};
pub use crate::h3::stream::{Reader, Resolver, RespondError, Stream, Writer};

verus! {

/// No error: a clean teardown.
pub const NO_ERROR: Code = Code::H3_NO_ERROR;

/// The proxy's connection to the target failed or was reset.
pub const CONNECT_ERROR: Code = Code::H3_CONNECT_ERROR;

/// The peer sent something malformed.
pub const MESSAGE_ERROR: Code = Code::H3_MESSAGE_ERROR;

/// The request or its response is cancelled.
pub const REQUEST_CANCELLED: Code = Code::H3_REQUEST_CANCELLED;

/// A datagram or capsule could not be parsed.
pub const DATAGRAM_ERROR: Code = Code::H3_DATAGRAM_ERROR;

/// The code a connection is closed with when its peer has run out of attempts to
/// authenticate. It has the number of H3_REQUEST_REJECTED, so that the peer sees
/// something meaningful.
pub const AUTH_FAILURE_LIMIT_CODE: u64 = 0x10b;

/// The code the peer reset a stream with, if it did.
pub fn peer_reset_code(error: &StreamError) -> (code: Option<u64>)
    ensures
        code == match *error {
            StreamError::RemoteTerminate { code } => Some(code.number()),
            _ => None,
        },
{
    match error {
        StreamError::RemoteTerminate { code } => Some(code.value()),
        _ => None,
    }
}

/// How a connection ended, when it ended with an error not worth a warning.
#[derive(Debug, Clone, Copy, PartialEq, Eq, Structural)]
pub enum BenignClose {
    /// The peer went silent.
    Idle,
    /// The peer closed the connection cleanly.
    PeerClosed,
}

/// The ordinary goodbye that a connection error is, if it is one: an idle
/// timeout, a close by the peer that reports nothing, or a close by this end
/// that does.
pub open spec fn goodbye(error: ConnectionError) -> Option<BenignClose> {
    match error {
        ConnectionError::Timeout => Some(BenignClose::Idle),
        ConnectionError::ApplicationClose { code } => if code.number() == 0 || code.number()
            == NO_ERROR.number() {
            Some(BenignClose::PeerClosed)
        } else {
            None
        },
        ConnectionError::Local(violation) => if violation@.code.number() == NO_ERROR.number() {
            Some(BenignClose::Idle)
        } else {
            None
        },
        ConnectionError::Transport(_) => None,
    }
}

/// Classifies a connection error that is an ordinary goodbye rather than a
/// failure, or `None` if it deserves a warning.
pub fn benign_close(error: &ConnectionError) -> (close: Option<BenignClose>)
    ensures
        close == goodbye(*error),
{
    match error {
        ConnectionError::Timeout => Some(BenignClose::Idle),
        ConnectionError::ApplicationClose { code } => if code.value() == 0 || code.value()
            == NO_ERROR.value() {
            Some(BenignClose::PeerClosed)
        } else {
            None
        },
        ConnectionError::Local(violation) => if violation.code().value() == NO_ERROR.value() {
            Some(BenignClose::Idle)
        } else {
            None
        },
        ConnectionError::Transport(_) => None,
    }
}

} // verus!
