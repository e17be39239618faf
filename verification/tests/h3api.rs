use volto::h3::error::{TransportError, Violation};
use volto::h3api::{
    benign_close, peer_reset_code, BenignClose, Code, ConnectionError, StreamError,
    AUTH_FAILURE_LIMIT_CODE, CONNECT_ERROR, NO_ERROR,
};

#[test]
fn a_peer_reset_is_told_apart_from_every_other_failure() {
    assert_eq!(
        peer_reset_code(&StreamError::RemoteTerminate {
            code: CONNECT_ERROR
        }),
        Some(0x10f)
    );
    assert_eq!(
        peer_reset_code(&StreamError::Connection(ConnectionError::Timeout)),
        None
    );
}

/// The grading `quic.rs` logs by: two endings are routine, the rest warn.
#[test]
fn routine_endings_are_graded_as_such() {
    assert_eq!(
        benign_close(&ConnectionError::Timeout),
        Some(BenignClose::Idle)
    );
    for code in [Code::new(0), NO_ERROR] {
        assert_eq!(
            benign_close(&ConnectionError::ApplicationClose { code }),
            Some(BenignClose::PeerClosed),
            "{code:?}"
        );
    }
}

/// A close this endpoint makes with nothing to report is graded with the
/// idle timeout it stands in for, not with the violations (D76).
#[test]
fn our_own_quiet_close_is_routine() {
    assert_eq!(
        benign_close(&ConnectionError::Local(Violation::connection(
            NO_ERROR,
            "no request within the timeout"
        ))),
        Some(BenignClose::Idle)
    );
}

#[test]
fn a_reported_problem_still_warns() {
    assert_eq!(
        benign_close(&ConnectionError::ApplicationClose {
            code: Code::new(42)
        }),
        None
    );
    // A violation is still a violation, whatever its code says about us.
    assert_eq!(
        benign_close(&ConnectionError::Local(Violation::connection(
            Code::H3_FRAME_UNEXPECTED,
            "a frame that may not appear here"
        ))),
        None
    );
    assert_eq!(
        benign_close(&ConnectionError::Transport(
            TransportError::LocallyClosed
        )),
        None
    );
}

/// The close code is a number the peer reads, so it is pinned rather than
/// left to whatever `quinn::VarInt::from_u32` was handed.
#[test]
fn the_auth_failure_close_code_is_the_one_documented() {
    assert_eq!(AUTH_FAILURE_LIMIT_CODE, 0x10b);
}
