use volto::h3::error::{
    Code, ConnectionError, StreamError, TransferError, TransportError, Violation,
};
use volto::h3::varint;

#[test]
fn registered_codes_print_their_names() {
    assert_eq!(Code::H3_NO_ERROR.to_string(), "H3_NO_ERROR");
    assert_eq!(Code::H3_CONNECT_ERROR.to_string(), "H3_CONNECT_ERROR");
    assert_eq!(format!("{:?}", Code::H3_MESSAGE_ERROR), "H3_MESSAGE_ERROR");
}

/// The registry is open, so an unknown code has to survive as a number
/// rather than be lost or panicked on.
#[test]
fn unregistered_codes_print_as_hex() {
    assert_eq!(Code::new(0x4242).to_string(), "0x4242");
    assert_eq!(Code::new(0).to_string(), "0x0");
}

/// The values as their defining documents register them: RFC 9114 §8.1
/// for the H3_ codes, RFC 9297 §5.2 for H3_DATAGRAM_ERROR, and RFC 9204
/// §8.3 for the QPACK ones.
#[test]
fn code_values_match_the_registries() {
    assert_eq!(Code::H3_DATAGRAM_ERROR.value(), 0x33);
    assert_eq!(Code::H3_NO_ERROR.value(), 0x100);
    assert_eq!(Code::H3_MESSAGE_ERROR.value(), 0x10e);
    assert_eq!(Code::QPACK_DECOMPRESSION_FAILED.value(), 0x200);
}

/// The grading in `quic.rs` reads the connection close log off this text,
/// and `it_close_log` asserts the peer-close line names the variant.
#[test]
fn a_peer_application_close_names_itself() {
    let error = ConnectionError::from(TransportError::ApplicationClosed {
        code: 42,
        reason: Vec::new(),
    });
    let text = error.to_string();
    assert!(text.contains("ApplicationClose"), "{text}");
    assert!(!text.contains("Timeout"), "{text}");
}

/// A peer's *transport* close carries prose the peer wrote, and this type's
/// `Display` is what `quic.rs` records with `%error` on the `WARN` that ends
/// a connection. `Display` escapes nothing, and systemd splits a service's
/// stdout on `\n`, so a reason phrase reaching that line whole hands any peer
/// that can complete a handshake a journal entry of its own -- forged,
/// attributed to this server, and free.
///
/// The peer's own words are still worth having, so they are kept: bounded and
/// `Debug`-escaped where they enter this type, which is the same division of
/// labour `logfmt` states and `auth` already applies to a claimed user-id.
#[test]
fn a_peer_transport_close_cannot_forge_a_log_line() {
    let forged = "bye\nINFO volto: authentication succeeded for admin";
    let error = ConnectionError::from(TransportError::ConnectionClosed {
        error: quinn::TransportErrorCode::PROTOCOL_VIOLATION.to_string(),
        reason: forged.as_bytes().to_vec(),
    });

    let text = error.to_string();
    assert!(
        !text.contains('\n') && !text.contains('\r'),
        "a peer's reason phrase must not be able to start a journal line: {text:?}"
    );
    // The head survives, so the phrase is still a diagnostic.
    assert!(text.contains("bye"), "{text:?}");
}

/// The same phrase, at the length a peer may actually send: the reason is
/// bounded only by the QUIC packet that carries it, so an unbounded copy is
/// a kilobyte of journal per handshake as well as an injection.
#[test]
fn a_peer_transport_close_reason_is_bounded() {
    let error = ConnectionError::from(TransportError::ConnectionClosed {
        error: quinn::TransportErrorCode::PROTOCOL_VIOLATION.to_string(),
        reason: vec![b'r'; 4096],
    });

    let text = error.to_string();
    // The bulk of what is left is quinn's own prose for the error code,
    // which is a constant; what the peer chose is the part that has to stop
    // growing.
    assert!(
        !text.contains(&"r".repeat(33)),
        "the peer's phrase is unbounded: {text:?}"
    );
    assert!(
        text.len() < 256,
        "one close must not buy {} bytes of journal: {text:?}",
        text.len()
    );
    assert!(
        text.contains("4096"),
        "the real length is the fact: {text:?}"
    );
}

#[test]
fn the_idle_timeout_is_its_own_variant() {
    assert!(matches!(
        ConnectionError::from(TransportError::TimedOut),
        ConnectionError::Timeout
    ));
}

/// Our own close must not be filed as the peer's goodbye.
#[test]
fn a_local_close_stays_a_transport_error() {
    assert!(matches!(
        ConnectionError::from(TransportError::LocallyClosed),
        ConnectionError::Transport(TransportError::LocallyClosed)
    ));
}

#[test]
fn a_reset_carries_the_peers_code() {
    let error = StreamError::from(TransferError::Terminated {
        code: 0x10f,
        text: "stream reset by peer: error 271".to_owned(),
    });
    assert!(matches!(
        error,
        StreamError::RemoteTerminate { code } if code == Code::H3_CONNECT_ERROR
    ));
}

#[test]
fn a_stop_sending_carries_the_peers_code() {
    let error = StreamError::from(TransferError::Terminated {
        code: 0x100,
        text: "sending stopped by peer: error 256".to_owned(),
    });
    assert!(matches!(
        error,
        StreamError::RemoteTerminate { code } if code == Code::H3_NO_ERROR
    ));
}

#[test]
fn escalating_a_violation_keeps_its_code_and_text() {
    let violation = Violation::stream(Code::H3_FRAME_ERROR, "stream ended mid-frame");
    assert!(!violation.is_connection_error());

    let fatal = violation.clone().into_fatal();
    assert!(fatal.is_connection_error());
    assert_eq!(fatal.code(), violation.code());
    assert_eq!(fatal.to_string(), violation.to_string());
}

/// The rest of the texts, each through the value it belongs to.
#[test]
fn errors_print_what_they_are() {
    assert_eq!(ConnectionError::Timeout.to_string(), "Timeout");
    assert_eq!(
        ConnectionError::from(TransportError::ApplicationClosed {
            code: 0x4242,
            reason: b"ignored".to_vec()
        })
        .to_string(),
        "ApplicationClose: 0x4242"
    );
    assert_eq!(
        ConnectionError::Local(Violation::connection(Code::H3_ID_ERROR, "why")).to_string(),
        "closed by this server: H3_ID_ERROR: why"
    );
    assert_eq!(
        ConnectionError::from(TransportError::Other {
            text: "CIDs exhausted".to_owned()
        })
        .to_string(),
        "CIDs exhausted"
    );
    assert_eq!(
        StreamError::Connection(ConnectionError::Timeout).to_string(),
        "connection error: Timeout"
    );
    assert_eq!(
        StreamError::from(TransferError::Other {
            text: "closed stream".to_owned()
        })
        .to_string(),
        "stream reset by this server: H3_INTERNAL_ERROR: closed stream"
    );
    assert!(matches!(
        StreamError::from(TransferError::ConnectionLost(TransportError::TimedOut)),
        StreamError::Connection(ConnectionError::Timeout)
    ));
    assert_eq!(
        TransferError::ConnectionLost(TransportError::TimedOut).to_string(),
        "connection lost"
    );
}

/// The transport's texts are the ones that quinn prints.
#[test]
fn transport_errors_print_as_quinn_prints_them() {
    for reason in [&b""[..], b"bye", b"\xff"] {
        assert_eq!(
            TransportError::ApplicationClosed {
                code: 42,
                reason: reason.to_vec()
            }
            .to_string(),
            quinn::ConnectionError::ApplicationClosed(quinn::ApplicationClose {
                error_code: quinn::VarInt::from_u32(42),
                reason: bytes::Bytes::copy_from_slice(reason),
            })
            .to_string()
        );
        let code = quinn::TransportErrorCode::crypto(40);
        assert_eq!(
            TransportError::ConnectionClosed {
                error: code.to_string(),
                reason: reason.to_vec()
            }
            .to_string(),
            quinn::ConnectionError::ConnectionClosed(quinn::ConnectionClose {
                error_code: code,
                frame_type: None,
                reason: bytes::Bytes::copy_from_slice(reason),
            })
            .to_string()
        );
    }
    assert_eq!(
        TransportError::TimedOut.to_string(),
        quinn::ConnectionError::TimedOut.to_string()
    );
    assert_eq!(
        TransportError::LocallyClosed.to_string(),
        quinn::ConnectionError::LocallyClosed.to_string()
    );
}

/// Every code keeps its number, named or not, and the name follows the number.
#[test]
fn codes_are_told_apart_by_their_numbers() {
    for value in 0..0x300u64 {
        let code = Code::new(value);
        assert_eq!(code.value(), value);
        assert_eq!(code, Code::new(value));
        let named = value == 0x33 || (0x100..=0x110).contains(&value) || (0x200..=0x202).contains(&value);
        assert_eq!(matches!(code, Code::Unregistered(_)), !named, "{value:#x}");
    }
}

/// A close carries a QUIC integer, so a code past the largest becomes it.
#[test]
fn a_code_on_the_wire_is_a_quic_integer() {
    assert_eq!(varint(Code::H3_NO_ERROR), 0x100);
    assert_eq!(varint(Code::new((1 << 62) - 1)), (1 << 62) - 1);
    assert_eq!(varint(Code::new(1 << 62)), (1 << 62) - 1);
    assert_eq!(varint(Code::new(u64::MAX)), quinn::VarInt::MAX.into_inner());
}

/// Only one kind of violation is a field section too large.
#[test]
fn a_large_field_section_is_marked() {
    let marked = Violation::field_section_too_large("too much");
    assert!(marked.is_field_section_too_large());
    assert_eq!(marked.code(), Code::H3_EXCESSIVE_LOAD);
    assert!(!marked.is_connection_error());
    assert!(!Violation::stream(Code::H3_EXCESSIVE_LOAD, "flood").is_field_section_too_large());
}
