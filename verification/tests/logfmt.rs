use volto::h3::error::TransportError;
use volto::logfmt::{
    addresses, bounded, bounded_bytes, escaped_bytes, or_dash, peer_error, Sampler, ABSENT,
};

/// A value present prints as itself, with no wrapper and no quotes.
#[test]
fn a_present_value_prints_as_itself() {
    assert_eq!(or_dash(Some("h3")).to_string(), "h3");
    assert_eq!(
        or_dash(Some(String::from("localhost"))).to_string(),
        "localhost"
    );

    assert_eq!(or_dash(Some(443u16)).to_string(), "443");
}

/// An absent value prints as the placeholder, so the field keeps its shape.
#[test]
fn an_absent_value_prints_as_the_placeholder() {
    assert_eq!(or_dash(None::<&str>).to_string(), ABSENT);
    assert_eq!(or_dash(None::<u16>).to_string(), ABSENT);
}

/// The placeholder is not something a real value could be confused with in a
/// `grep`: it is one character, and none of the fields this is used on can
/// produce it.
#[test]
fn the_placeholder_is_a_single_dash() {
    assert_eq!(ABSENT, "-");
}

/// An unauthenticated peer can name a 64 KiB `:protocol`; the log gets the
/// head of it and the length, not the whole thing.
#[test]
fn a_logged_token_is_bounded() {
    assert_eq!(bounded("connect-udp"), "connect-udp");
    assert_eq!(bounded(""), "");
    // Exactly at the bound is still echoed whole.
    let full = "p".repeat(32);
    assert_eq!(bounded(&full), full);

    let long = "p".repeat(64 * 1024);
    let logged = bounded(&long);
    assert_eq!(
        logged,
        format!("{full}... <truncated from 65536 bytes>"),
        "the head and the real length, and nothing else"
    );
    assert!(logged.len() < 80, "{logged}");
}

/// Truncation must land on a character boundary, or slicing panics — and on
/// the boundary *below* [`MAX_TOKEN`], since the one above it is past the
/// bound and so no bound at all.
#[test]
fn a_multibyte_token_is_cut_on_a_boundary() {
    // Twenty three-byte characters: the 32-byte cut falls inside the
    // eleventh, whose own boundary is at 30.
    let token = "\u{20ac}".repeat(20);
    assert_eq!(
        bounded(&token),
        format!("{}... <truncated from 60 bytes>", "\u{20ac}".repeat(10)),
        "ten whole characters, not eleven"
    );

    // A cut three bytes into a character rather than one: an ASCII byte
    // followed by four-byte characters puts a boundary at 29 and the next
    // at 33.
    let token = format!("a{}", "\u{1f600}".repeat(10));
    assert_eq!(
        bounded(&token),
        format!("a{}... <truncated from 41 bytes>", "\u{1f600}".repeat(7)),
        "seven whole characters, not eight"
    );
}

/// The same bound on bytes that were never promised to be text, which is
/// what a claimed user-id is.
#[test]
fn a_logged_byte_string_is_bounded_and_decoded_leniently() {
    assert_eq!(bounded_bytes(b"user1"), "user1");
    // Invalid bytes are replaced rather than losing the whole value: who
    // was guessed at is the diagnostic point.
    assert_eq!(bounded_bytes(&[0xff, 0xfe]), "\u{fffd}\u{fffd}");

    let long = vec![b'u'; 48_000];
    let logged = bounded_bytes(&long);
    assert_eq!(
        logged,
        format!("{}... <truncated from 48000 bytes>", "u".repeat(32)),
        "a huge user-id costs a bounded log line, and says how huge it was"
    );
    assert!(logged.len() < 80, "{logged}");
}

/// Both rules at once, for the bytes that reach a line inside somebody
/// else's `Display` and so have no sigil of their own.
#[test]
fn escaped_bytes_bounds_and_escapes() {
    assert_eq!(escaped_bytes(b"unexpected frame"), "\"unexpected frame\"");

    // The attack the escaping is for: systemd splits on `\n`, so a raw one
    // would end the line and start a forged entry.
    let forged = escaped_bytes(b"bye\nINFO volto: all is well");
    assert!(!forged.contains('\n'), "{forged}");
    assert!(forged.contains("bye"), "{forged}");

    // A carriage return and an escape are the other two a terminal or a log
    // reader acts on; neither survives as itself.
    let control = escaped_bytes(b"a\r\x1b[2Jb");
    assert!(
        !control.contains('\r') && !control.contains('\x1b'),
        "{control}"
    );

    let long = escaped_bytes(&vec![b'r'; 4096]);
    assert!(long.len() < 80, "{long}");
    assert!(long.contains("4096"), "{long}");
}

/// Both kinds of QUIC close carry a peer-written reason phrase, and the
/// handshake door in [`crate::quic`] meets both: a transport close is what a
/// peer's TLS stack sends when it refuses the certificate, and an
/// application close is what a peer sends the moment it has 1-RTT keys.
#[test]
fn a_peer_authored_reason_phrase_is_bounded_and_escaped() {
    let forged = b"bye\nINFO volto: all is well".as_slice();

    let transport = peer_error(TransportError::ConnectionClosed {
        error: quinn::TransportErrorCode::crypto(40).to_string(),
        reason: forged.to_vec(),
    })
    .to_string();
    assert!(!transport.contains('\n'), "{transport}");
    assert!(transport.contains("bye"), "{transport}");

    let application = peer_error(TransportError::ApplicationClosed {
        code: 0x0100,
        reason: forged.to_vec(),
    })
    .to_string();
    assert!(!application.contains('\n'), "{application}");
    assert!(application.contains("bye"), "{application}");

    // What this server said about itself is not a peer's to rewrite, and is
    // passed through as it was.
    let ours = peer_error(TransportError::TimedOut).to_string();
    assert_eq!(ours, quinn::ConnectionError::TimedOut.to_string());
}

/// The first occurrence is never held back — a bound that made an operator
/// wait for the second probe before saying anything would have traded the
/// flood for a blind spot — and the reports carry the running total.
#[test]
fn a_sampler_reports_on_a_doubling_schedule() {
    let mut sampler = Sampler::new();

    let reported: Vec<u64> = (0..64).filter_map(|_| sampler.record()).collect();
    assert_eq!(reported, vec![1, 2, 4, 8, 16, 32, 64]);
}

/// The list a name resolves to is the name owner's choice, and a DNS answer
/// has room for thousands: a log line may not carry all of them, and may not
/// hide that there were thousands either.
#[test]
fn an_address_list_is_printed_at_a_length_a_line_can_afford() {
    let none: Vec<String> = Vec::new();
    assert_eq!(addresses(&none), "[]");

    let two: Vec<String> = vec!["127.0.0.1:443".to_owned(), "[::1]:443".to_owned()];
    assert_eq!(addresses(&two), "[127.0.0.1:443, [::1]:443]");

    // Exactly at the bound is still printed whole, with nothing appended.
    let eight: Vec<String> = (0..8).map(|n| format!("10.0.0.{n}:443")).collect();
    let printed = addresses(&eight);
    assert!(printed.ends_with("10.0.0.7:443]"), "{printed}");
    assert!(!printed.contains("more"), "{printed}");

    let flood: Vec<String> = (0..4000).map(|n| format!("0.0.0.0:{n}")).collect();
    let printed = addresses(&flood);
    assert!(
        printed.ends_with(", and 3992 more]"),
        "the count is the diagnosis, not the list: {printed}"
    );
    assert!(
        printed.len() < 200,
        "one line must not carry {} bytes of resolver answer",
        printed.len()
    );
}

/// The property that makes it a bound rather than a slower flood: the line
/// count grows with the *logarithm* of the occurrences.
#[test]
fn a_sampler_turns_a_flood_into_a_handful_of_lines() {
    let mut sampler = Sampler::new();
    let reported = (0..65_536).filter(|_| sampler.record().is_some()).count();

    assert_eq!(reported, 17, "every port on a host, in seventeen lines");
}

/// No control character survives quoting, whichever it is.
#[test]
fn no_control_character_survives_escaping() {
    for byte in (0..32u8).chain([0x7f]) {
        let text = escaped_bytes(&[b'a', byte, b'b']);
        assert!(text.chars().all(|c| c >= ' ' && c != '\u{7f}'), "{byte:#x}: {text:?}");
        assert!(text.starts_with("\"a\\") && text.ends_with("b\""), "{byte:#x}: {text:?}");
    }
    for control in '\u{80}'..='\u{9f}' {
        let text = escaped_bytes(format!("a{control}b").as_bytes());
        assert_eq!(text, format!("\"a\\u{{{:x}}}b\"", u32::from(control)));
    }
    assert_eq!(escaped_bytes(b""), "\"\"");
    assert_eq!(escaped_bytes(b"\xff"), "\"\u{fffd}\"");
}

/// Printable ASCII without a quote mark or a backslash is shown as it is, and cut
/// as any other.
#[test]
fn plain_text_is_shown_as_it_is() {
    assert_eq!(escaped_bytes(b"unexpected frame"), "\"unexpected frame\"");
    for byte in (0x20..=0x7eu8).filter(|byte| !matches!(byte, b'"' | b'\\')) {
        let shown = char::from(byte);
        assert_eq!(escaped_bytes(&[byte; 3]), format!("\"{shown}{shown}{shown}\""));
    }
    assert_eq!(
        escaped_bytes(&[b'r'; 4096]),
        format!("\"{}... <truncated from 4096 bytes>\"", "r".repeat(32))
    );
}

/// The reports of a sampler number one more than the logarithm of what it saw.
#[test]
fn a_sampler_counts_everything_it_sees() {
    let mut sampler = Sampler::default();
    let mut reports = 0;
    for seen in 1..=1000u64 {
        if sampler.record().is_some() {
            reports += 1;
        }
        assert_eq!(sampler.seen(), seen);
        assert_eq!(reports, seen.ilog2() + 1);
    }
}
