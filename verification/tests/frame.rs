use bytes::{Bytes, BytesMut};
use volto::datagram::{peek_varint, put_varint, VARINT_MAX};
use volto::h3::error::Code;
use volto::h3::frame::{
    begin, misplaced, parse_settings, put_header, settings_payload, single_varint, BufferBudget,
    Error, Frame, FrameDecoder, FrameReader, Item, Next, State, StreamKind, CANCEL_PUSH, DATA,
    GOAWAY, HEADERS, MAX_BUFFERED_FRAME, MAX_PUSH_ID, PUSH_PROMISE, RESERVED_HTTP2_SETTINGS,
    RESERVED_HTTP2_TYPES, SETTINGS, SETTING_ENABLE_CONNECT_PROTOCOL, SETTING_H3_DATAGRAM,
    SETTING_MAX_FIELD_SECTION_SIZE, SETTING_QPACK_BLOCKED_STREAMS,
    SETTING_QPACK_MAX_TABLE_CAPACITY,
};
use volto::h3::{HEADERS_BUFFER_BUDGET, MAX_FIELD_SECTION_SIZE};

/// Byte strings of all lengths up to 64, from a fixed pseudo-random sequence.
fn arbitrary(count: usize) -> Vec<Vec<u8>> {
    let mut state = 0x9e37_79b9_7f4a_7c15u64;
    let mut next = || {
        state = state.wrapping_mul(6364136223846793005).wrapping_add(1442695040888963407);
        (state >> 33) as u8
    };
    (0..count)
        .map(|n| (0..n % 65).map(|_| next()).collect())
        .collect()
}

fn settings(pairs: &[(u64, u64)]) -> Vec<u8> {
    let mut payload = BytesMut::new();
    for (identifier, value) in pairs {
        put_varint(&mut payload, *identifier);
        put_varint(&mut payload, *value);
    }
    payload.to_vec()
}

#[test]
fn the_advertised_settings_are_the_ones_surge_checks_for() {
    let payload = settings_payload();
    let mut rest = &payload[..];
    let mut found = std::collections::HashMap::new();

    while !rest.is_empty() {
        let (identifier, used) = peek_varint(rest).expect("identifier");
        rest = &rest[used..];
        let (value, used) = peek_varint(rest).expect("value");
        rest = &rest[used..];
        assert!(found.insert(identifier, value).is_none(), "duplicate");
    }

    assert_eq!(found.get(&SETTING_ENABLE_CONNECT_PROTOCOL), Some(&1));
    assert_eq!(found.get(&SETTING_H3_DATAGRAM), Some(&1));
    assert_eq!(
        found.get(&SETTING_MAX_FIELD_SECTION_SIZE),
        Some(&MAX_FIELD_SECTION_SIZE)
    );
    assert_eq!(found.get(&SETTING_QPACK_MAX_TABLE_CAPACITY), Some(&0));
    assert_eq!(found.get(&SETTING_QPACK_BLOCKED_STREAMS), Some(&0));
}

/// What this server sends must survive its own parser, reserved-identifier
/// and duplicate rules included.
#[test]
fn our_own_settings_parse() {
    let parsed = parse_settings(&settings_payload()).expect("parses");
    assert!(parsed.datagrams);
}

#[test]
fn a_peer_that_enables_datagrams_is_recognised() {
    assert!(
        parse_settings(&settings(&[(SETTING_H3_DATAGRAM, 1)]))
            .expect("parses")
            .datagrams
    );
    assert!(
        !parse_settings(&settings(&[(SETTING_H3_DATAGRAM, 0)]))
            .expect("parses")
            .datagrams
    );
    // Absent means absent: RFC 9297 §2.1.1 defaults it to off.
    assert!(!parse_settings(&[]).expect("parses").datagrams);
}

#[test]
fn unknown_and_grease_settings_are_ignored() {
    let parsed = parse_settings(&settings(&[
        (0x1f * 3 + 0x21, 0),
        (0x4242, 99),
        (SETTING_H3_DATAGRAM, 1),
    ]))
    .expect("parses");
    assert!(parsed.datagrams);
}

#[test]
fn reserved_http2_setting_identifiers_are_refused() {
    for identifier in RESERVED_HTTP2_SETTINGS {
        let error = parse_settings(&settings(&[(identifier, 0)])).expect_err("refused");
        assert_eq!(error.code(), Code::H3_SETTINGS_ERROR);
        assert!(error.is_connection_error());
    }
}

#[test]
fn a_repeated_setting_identifier_is_refused() {
    let error = parse_settings(&settings(&[
        (SETTING_H3_DATAGRAM, 1),
        (SETTING_H3_DATAGRAM, 1),
    ]))
    .expect_err("refused");
    assert_eq!(error.code(), Code::H3_SETTINGS_ERROR);
}

/// RFC 9297 §2.1.1 states the H3_DATAGRAM rule as a MUST on the receiver,
/// so a value outside {0, 1} ends the connection.
#[test]
fn a_datagram_setting_with_another_value_is_refused() {
    let error = parse_settings(&settings(&[(SETTING_H3_DATAGRAM, 2)])).expect_err("refused");
    assert_eq!(error.code(), Code::H3_SETTINGS_ERROR);
    assert!(error.is_connection_error());

    // A setting whose value this server does not constrain is untouched.
    assert!(parse_settings(&settings(&[(SETTING_MAX_FIELD_SECTION_SIZE, 1 << 40)])).is_ok());
}

/// RFC 8441 §3: "Receipt of this parameter by a server does not have any
/// impact." A value it never defined is ignored with the rest of it, rather
/// than costing the peer its tunnels.
#[test]
fn enable_connect_protocol_is_ignored_whatever_its_value_is() {
    for value in [0, 1, 2, VARINT_MAX] {
        let parsed = parse_settings(&settings(&[
            (SETTING_ENABLE_CONNECT_PROTOCOL, value),
            (SETTING_H3_DATAGRAM, 1),
        ]))
        .unwrap_or_else(|error| panic!("value {value} must be ignored, got {error:?}"));
        assert!(parsed.datagrams, "the rest of the frame must still apply");
    }
}

/// RFC 9114 §7.1 answers a payload that ends before its fields do, whatever
/// the frame type; §7.2.4's H3_SETTINGS_ERROR is for what the settings say,
/// not for a frame that was cut short.
#[test]
fn a_settings_payload_that_ends_mid_pair_is_a_frame_error() {
    let mut payload = settings(&[(SETTING_H3_DATAGRAM, 1)]);
    payload.pop();
    let error = parse_settings(&payload).expect_err("refused");
    assert_eq!(error.code(), Code::H3_FRAME_ERROR);
    assert!(error.is_connection_error());

    // An identifier with no value at all is the same fault.
    let error = parse_settings(&[0x33]).expect_err("refused");
    assert_eq!(error.code(), Code::H3_FRAME_ERROR);
}

#[test]
fn goaway_carries_exactly_one_varint() {
    assert_eq!(single_varint(GOAWAY, &[0x04]).expect("parses"), 4);
    // Trailing bytes and a truncated varint are both H3_FRAME_ERROR.
    for payload in [&[0x04, 0x00][..], &[][..], &[0xc0][..]] {
        let error = single_varint(GOAWAY, payload).expect_err("refused");
        assert_eq!(error.code(), Code::H3_FRAME_ERROR);
        assert!(error.is_connection_error());
    }
}

/// Encodes a frame with `kind` and `payload` for the decoder tests.
fn frame(kind: u64, payload: &[u8]) -> Vec<u8> {
    let mut out = BytesMut::new();
    put_header(&mut out, kind, payload.len() as u64);
    out.extend_from_slice(payload);
    out.to_vec()
}

/// A request stream's decoder with a budget of its own, for the tests that
/// are not about the budget.
fn fresh_decoder() -> (FrameDecoder, BufferBudget) {
    (FrameDecoder::new(StreamKind::Request), BufferBudget::default())
}

/// Feeds `wire` to a decoder one byte at a time and collects what comes out.
///
/// A byte at a time on purpose: it is the worst case a real stream can
/// produce, and the only way to prove a frame header straddling chunks is
/// reassembled rather than mis-parsed.
fn decode_bytewise(wire: &[u8]) -> Result<Vec<Item>, Error> {
    let (mut decoder, mut budget) = fresh_decoder();
    let mut items = Vec::new();

    for byte in wire {
        decoder.push(Bytes::copy_from_slice(&[*byte]));
        while let Some(item) = decoder.next_item(&mut budget)? {
            items.push(item);
        }
    }
    Ok(items)
}

#[test]
fn a_headers_frame_split_across_chunks_is_reassembled() {
    // A length that needs a two-byte varint, so the header itself straddles.
    let block = vec![0x5au8; 200];
    let items = decode_bytewise(&frame(HEADERS, &block)).expect("decodes");

    assert_eq!(items.len(), 1);
    let Item::Frame(Frame::Headers(decoded)) = &items[0] else {
        panic!("expected HEADERS, got {items:?}")
    };
    assert_eq!(&decoded[..], &block[..]);
}

/// DATA is handed out in the chunks it arrived in, never accumulated.
#[test]
fn data_payload_is_handed_out_as_it_arrives() {
    let items = decode_bytewise(&frame(DATA, b"hello")).expect("decodes");

    let payload: Vec<u8> = items
        .iter()
        .flat_map(|item| match item {
            Item::Data(chunk) => chunk.clone(),
            other => panic!("expected DATA, got {other:?}"),
        })
        .collect();
    assert_eq!(payload, b"hello");
    assert_eq!(items.len(), 5, "one item per arriving byte");
}

/// One chunk holding several frames must produce all of them, and a chunk
/// never spans two frames.
#[test]
fn several_frames_in_one_chunk_all_come_out() {
    let mut wire = frame(DATA, b"abc");
    wire.extend_from_slice(&frame(HEADERS, b"block"));
    wire.extend_from_slice(&frame(DATA, b"de"));

    let (mut decoder, mut budget) = fresh_decoder();
    decoder.push(Bytes::from(wire));

    let mut items = Vec::new();
    while let Some(item) = decoder.next_item(&mut budget).expect("decodes") {
        items.push(item);
    }

    assert!(matches!(&items[0], Item::Data(chunk) if &chunk[..] == b"abc"));
    assert!(matches!(&items[1], Item::Frame(Frame::Headers(block)) if &block[..] == b"block"));
    assert!(matches!(&items[2], Item::Data(chunk) if &chunk[..] == b"de"));
    assert_eq!(items.len(), 3);
}

/// RFC 9114 §9: unknown types, grease included, are skipped by their
/// declared length and never buffered -- but their arrival is announced,
/// because a reader applying §6.2.1's "first frame" rule has to see them.
#[test]
fn unknown_frame_types_are_skipped() {
    for kind in [0x21u64, 0x1f * 7 + 0x21, 0x4242] {
        let mut wire = frame(kind, b"whatever this is");
        wire.extend_from_slice(&frame(DATA, b"body"));

        let items = decode_bytewise(&wire).expect("decodes");
        let (skipped, body) = items.split_first().expect("at least the skipped frame");

        assert!(
            matches!(skipped, Item::Skipped { kind: skipped } if *skipped == kind),
            "grease type {kind:#x} must be announced once, got {items:?}"
        );
        let payload: Vec<u8> = body
            .iter()
            .flat_map(|item| match item {
                Item::Data(chunk) => chunk.clone(),
                other => panic!("expected only DATA after it, got {other:?}"),
            })
            .collect();
        assert_eq!(payload, b"body", "grease type {kind:#x}");
    }
}

/// The skipped frame is announced once it is *spent*, not when it starts:
/// a reader must not act on a frame whose payload is still arriving.
#[test]
fn a_skipped_frame_is_announced_only_once_it_is_complete() {
    // Type, length and all but the last payload byte: still nothing.
    let wire = frame(0x21, b"payload");
    let (mut decoder, mut budget) = fresh_decoder();
    decoder.push(Bytes::copy_from_slice(&wire[..wire.len() - 1]));
    assert!(decoder.next_item(&mut budget).expect("decodes").is_none());
    assert!(!decoder.at_frame_boundary());

    decoder.push(Bytes::copy_from_slice(&wire[wire.len() - 1..]));
    assert!(matches!(
        decoder.next_item(&mut budget).expect("decodes"),
        Some(Item::Skipped { kind: 0x21 })
    ));
    assert!(decoder.at_frame_boundary());
}

/// An empty frame of either kind must not stall the decoder waiting for a
/// payload that will never come -- and must still be reported, so that a
/// caller can tell "a DATA frame arrived" from "nothing arrived".
#[test]
fn zero_length_frames_do_not_stall_the_decoder() {
    let mut wire = frame(DATA, b"");
    wire.extend_from_slice(&frame(0x21, b""));
    wire.extend_from_slice(&frame(HEADERS, b""));

    let items = decode_bytewise(&wire).expect("decodes");
    assert!(
        matches!(
            &items[..],
            [
                Item::Data(empty),
                Item::Skipped { kind: 0x21 },
                Item::Frame(Frame::Headers(block))
            ] if empty.is_empty() && block.is_empty()
        ),
        "got {items:?}"
    );
}

/// RFC 9114 §7.2.8: the types HTTP/2 used and HTTP/3 does not are a
/// connection error, not something to skip.
#[test]
fn reserved_http2_frame_types_end_the_connection() {
    for kind in RESERVED_HTTP2_TYPES {
        let Err(Error::Protocol(violation)) = begin(StreamKind::Control, kind, 0) else {
            panic!("frame type {kind:#x} must be refused")
        };
        assert_eq!(violation.code(), Code::H3_FRAME_UNEXPECTED);
        assert!(violation.is_connection_error());
    }
}

#[test]
fn a_frame_past_the_buffer_limit_is_refused_before_it_is_allocated() {
    let Err(Error::Protocol(violation)) =
        begin(StreamKind::Request, HEADERS, MAX_BUFFERED_FRAME + 1)
    else {
        panic!("an oversized frame must be refused")
    };
    assert_eq!(violation.code(), Code::H3_EXCESSIVE_LOAD);
    assert!(
        !violation.is_connection_error(),
        "one oversized frame is a stream problem, not a connection one"
    );

    assert!(begin(StreamKind::Request, HEADERS, MAX_BUFFERED_FRAME).is_ok());
    // DATA is never buffered, so no declared length can be too large.
    assert!(begin(StreamKind::Request, DATA, VARINT_MAX).is_ok());
}

/// The whole of [`misplaced`], and the ordering it depends on: a frame type
/// that may not appear on this stream is a connection error at *every*
/// length, including the lengths the per-frame cap would otherwise refuse
/// with a stream error.
#[test]
fn a_frame_types_verdict_comes_before_its_length() {
    /// Nothing, one byte, the largest buffered frame, and one past it.
    const LENGTHS: [u64; 4] = [0, 1, MAX_BUFFERED_FRAME, MAX_BUFFERED_FRAME + 1];

    for (stream, refused, allowed) in [
        (
            StreamKind::Request,
            &[SETTINGS, GOAWAY, CANCEL_PUSH, MAX_PUSH_ID, PUSH_PROMISE][..],
            &[DATA, HEADERS, 0x1f * 4 + 0x21][..],
        ),
        (
            StreamKind::Tunnel,
            &[
                HEADERS,
                SETTINGS,
                GOAWAY,
                CANCEL_PUSH,
                MAX_PUSH_ID,
                PUSH_PROMISE,
            ][..],
            &[DATA, 0x1f * 4 + 0x21][..],
        ),
        (
            StreamKind::Control,
            &[][..],
            &[
                DATA,
                HEADERS,
                SETTINGS,
                GOAWAY,
                CANCEL_PUSH,
                MAX_PUSH_ID,
                PUSH_PROMISE,
            ][..],
        ),
    ] {
        for kind in refused {
            for length in LENGTHS {
                let Err(Error::Protocol(violation)) = begin(stream, *kind, length) else {
                    panic!("{stream:?}: frame type {kind:#x} of {length} bytes must be refused")
                };
                assert_eq!(violation.code(), Code::H3_FRAME_UNEXPECTED, "{stream:?}");
                assert!(
                    violation.is_connection_error(),
                    "{stream:?}: frame type {kind:#x} is a connection error, not a 431"
                );
            }
        }

        for kind in allowed {
            assert!(
                misplaced(stream, *kind).is_none(),
                "{stream:?}: frame type {kind:#x} belongs here"
            );
        }
    }
}

/// The transition the tunnels make: a stream that accepted a field section
/// while its request was arriving refuses one afterwards.
#[test]
fn answering_the_connect_narrows_what_the_stream_may_carry() {
    let (mut decoder, mut budget) = fresh_decoder();
    assert!(matches!(
        begin(decoder.stream(), HEADERS, 200),
        Ok(State::Buffering { .. })
    ));

    decoder.connect_completed();

    let mut wire = BytesMut::new();
    put_header(&mut wire, HEADERS, MAX_BUFFERED_FRAME);
    decoder.push(wire.freeze());

    let Err(Error::Protocol(violation)) = decoder.next_item(&mut budget) else {
        panic!("a field section after the CONNECT completed must be refused")
    };
    assert_eq!(violation.code(), Code::H3_FRAME_UNEXPECTED);
    assert!(violation.is_connection_error());
    assert_eq!(
        budget.held(),
        0,
        "a refused frame must not have been charged for"
    );
}

/// the connection's budget is charged for what a frame *announces*,
/// and given back on both of the ways a frame stops being held -- it
/// completes, or the stream carrying it dies half-way through.
#[test]
fn a_buffered_frame_holds_budget_until_it_completes_or_is_dropped() {
    let mut budget = BufferBudget::default();
    let mut decoder = FrameDecoder::new(StreamKind::Request);

    // The header alone commits the connection to the whole length.
    let mut wire = BytesMut::new();
    put_header(&mut wire, HEADERS, 1000);
    wire.extend_from_slice(&[0x5a; 400]);
    decoder.push(wire.freeze());
    assert!(decoder.next_item(&mut budget).expect("decodes").is_none());
    assert_eq!(
        budget.held(),
        1000,
        "the announced length is charged, not the 400 bytes that have arrived"
    );

    // Completing it hands the payload on and returns every byte.
    decoder.push(Bytes::from(vec![0x5a; 600]));
    assert!(matches!(
        decoder.next_item(&mut budget).expect("decodes"),
        Some(Item::Frame(Frame::Headers(block))) if block.len() == 1000
    ));
    assert_eq!(budget.held(), 0);

    // A stream abandoned mid-frame returns its share as well, which is the
    // only thing standing between a peer that resets streams in a loop and
    // a connection that has spent its budget on nothing.
    let mut wire = BytesMut::new();
    put_header(&mut wire, HEADERS, 1000);
    decoder.push(wire.freeze());
    assert!(decoder.next_item(&mut budget).expect("decodes").is_none());
    assert_eq!(budget.held(), 1000);

    decoder.abandon(&mut budget);
    assert_eq!(budget.held(), 0);
}

/// frames each within [`MAX_BUFFERED_FRAME`] are still refused once
/// their sum is past what one connection may hold.
#[test]
fn frames_past_the_connection_budget_are_refused_one_at_a_time() {
    /// A decoder that has announced a full-sized frame and sent none of it.
    fn announce(budget: &mut BufferBudget) -> (FrameDecoder, Result<Option<Item>, Error>) {
        let mut decoder = FrameDecoder::new(StreamKind::Request);
        let mut wire = BytesMut::new();
        put_header(&mut wire, HEADERS, MAX_BUFFERED_FRAME);
        decoder.push(wire.freeze());
        let outcome = decoder.next_item(budget);
        (decoder, outcome)
    }

    let mut budget = BufferBudget::default();
    let fits = HEADERS_BUFFER_BUDGET / MAX_BUFFERED_FRAME as usize;

    let mut streams = Vec::new();
    for stream in 0..fits {
        let (decoder, outcome) = announce(&mut budget);
        assert!(
            matches!(outcome, Ok(None)),
            "stream {stream} is within the budget"
        );
        streams.push(decoder);
    }
    assert_eq!(budget.held(), fits * MAX_BUFFERED_FRAME as usize);

    // One more, and no stream has broken a rule of its own.
    let (_decoder, outcome) = announce(&mut budget);
    let Err(Error::Protocol(violation)) = outcome else {
        panic!("a frame past the connection budget must be refused")
    };
    assert_eq!(violation.code(), Code::H3_EXCESSIVE_LOAD);
    assert!(
        !violation.is_connection_error(),
        "the arriving request is refused, not the connection carrying it"
    );
    assert_eq!(
        budget.held(),
        fits * MAX_BUFFERED_FRAME as usize,
        "a refused charge must leave the counter where it was"
    );

    // And the connection is whole again once the streams are gone.
    for decoder in streams {
        decoder.abandon(&mut budget);
    }
    assert_eq!(budget.held(), 0);
}

/// RFC 9114 §7.1: a stream that ends inside a frame is an error, and one
/// that ends between them is the ordinary end of a request body.
#[test]
fn a_frame_boundary_is_where_a_stream_may_end() {
    let (mut decoder, mut budget) = fresh_decoder();
    assert!(decoder.at_frame_boundary());

    decoder.push(Bytes::from(frame(DATA, b"abcd")));
    assert!(matches!(
        decoder.next_item(&mut budget).expect("decodes"),
        Some(Item::Data(_))
    ));
    assert!(decoder.at_frame_boundary());

    // Half a frame header, then half a payload: neither is a place to stop.
    let (mut decoder, mut budget) = fresh_decoder();
    decoder.push(Bytes::from_static(&[0x00]));
    assert!(decoder.next_item(&mut budget).expect("decodes").is_none());
    assert!(!decoder.at_frame_boundary());

    let (mut decoder, mut budget) = fresh_decoder();
    decoder.push(Bytes::from_static(&[0x00, 0x04, b'a']));
    assert!(decoder.next_item(&mut budget).expect("decodes").is_some());
    assert!(!decoder.at_frame_boundary());
}

/// The decoder reads bytes from an unauthenticated peer, so it may reject
/// anything but must never panic.
#[test]
fn arbitrary_bytes_never_panic_the_frame_decoder() {
    for wire in arbitrary(512) {
        let (mut decoder, mut budget) = fresh_decoder();
        decoder.push(Bytes::from(wire));
        while let Ok(Some(_)) = decoder.next_item(&mut budget) {}
    }
}

#[test]
fn frame_headers_round_trip() {
    for (kind, length) in [(DATA, 0u64), (HEADERS, 63), (SETTINGS, 16_384), (0x1f21, 1)] {
        let mut buf = BytesMut::new();
        put_header(&mut buf, kind, length);

        let (decoded_kind, used) = peek_varint(&buf).expect("type");
        let (decoded_length, used_more) = peek_varint(&buf[used..]).expect("length");
        assert_eq!((decoded_kind, decoded_length), (kind, length));
        assert_eq!(used + used_more, buf.len());
    }
}

/// The parser is fed bytes from an unauthenticated peer, so it may reject
/// anything but must never panic.
#[test]
fn arbitrary_bytes_never_panic_the_settings_parser() {
    for payload in arbitrary(512) {
        let _ = parse_settings(&payload);
    }
}

/// The same bytes, in one chunk and a byte at a time, say the same.
#[test]
fn a_frame_sequence_says_the_same_however_it_is_cut() {
    let mut wire = frame(DATA, b"abc");
    wire.extend_from_slice(&frame(0x21, b"grease"));
    wire.extend_from_slice(&frame(HEADERS, b"block"));

    let (mut decoder, mut budget) = fresh_decoder();
    decoder.push(Bytes::from(wire.clone()));
    let mut whole = Vec::new();
    while let Some(item) = decoder.next_item(&mut budget).expect("decodes") {
        whole.push(item);
    }
    let cut = decode_bytewise(&wire).expect("decodes");

    let said = |items: &[Item]| -> Vec<String> {
        items
            .iter()
            .flat_map(|item| match item {
                Item::Data(data) => data.iter().map(|byte| format!("byte {byte}")).collect(),
                Item::Frame(Frame::Headers(block)) => vec![format!("headers {block:?}")],
                other => vec![format!("{other:?}")],
            })
            .collect()
    };
    assert_eq!(said(&whole), said(&cut));
    assert_eq!(said(&whole).len(), 5);
}

/// Wherever a stream is cut, each DATA frame comes out apart from the next, and
/// with its own bytes.
#[test]
fn data_frames_stay_apart_however_they_are_cut() {
    let mut wire = frame(DATA, b"abc");
    wire.extend_from_slice(&frame(DATA, b""));
    wire.extend_from_slice(&frame(DATA, b"defg"));
    wire.extend_from_slice(&frame(DATA, b"h"));

    for first in 0..=wire.len() {
        for second in first..=wire.len() {
            let (mut decoder, mut budget) = fresh_decoder();
            let mut frames: Vec<Vec<u8>> = Vec::new();
            let mut open = Vec::new();
            for chunk in [&wire[..first], &wire[first..second], &wire[second..]] {
                decoder.push(Bytes::copy_from_slice(chunk));
                while let Some(item) = decoder.next_item(&mut budget).expect("decodes") {
                    let Item::Data(data) = item else {
                        panic!("only DATA was sent, not {item:?}")
                    };
                    open.extend_from_slice(&data);
                    if decoder.at_frame_boundary() {
                        frames.push(std::mem::take(&mut open));
                    }
                }
            }
            let whole: Vec<&[u8]> = frames.iter().map(Vec::as_slice).collect();
            assert_eq!(whole, [&b"abc"[..], b"", b"defg", b"h"], "cut at {first} and {second}");
            assert!(decoder.at_frame_boundary());
        }
    }
}

/// The budget is what its decoders have charged, and a refused charge names the
/// figures.
#[test]
fn the_budget_counts_what_is_charged() {
    let mut budget = BufferBudget::unshared();
    budget.charge(1_000_000).expect("within the budget");
    let refused = budget.charge(100_000).expect_err("past the budget");
    assert!(refused.is_field_section_too_large());
    assert_eq!(
        refused.to_string(),
        "H3_EXCESSIVE_LOAD: buffering another 100000 bytes would put this connection past the \
         1048576 it may hold in unfinished frames, of which 1000000 are already held"
    );
    assert_eq!(budget.held(), 1_000_000);
    budget.release(400_000);
    assert_eq!(budget.held(), 600_000);
    budget.release(usize::MAX);
    assert_eq!(budget.held(), 0, "never below nothing");
}

/// Every refusal of the frame layer, with the words it comes with.
#[test]
fn frame_refusals_say_what_was_wrong() {
    let text = |result: Result<State, Error>| match result {
        Err(Error::Protocol(violation)) => violation.to_string(),
        other => panic!("expected a violation, got {other:?}"),
    };
    assert_eq!(
        text(begin(StreamKind::Control, 0x06, 0)),
        "H3_FRAME_UNEXPECTED: frame type 0x6 is reserved for HTTP/2"
    );
    assert_eq!(
        text(begin(StreamKind::Request, SETTINGS, 0)),
        "H3_FRAME_UNEXPECTED: a SETTINGS frame on a request stream"
    );
    assert_eq!(
        text(begin(StreamKind::Request, HEADERS, 65537)),
        "H3_EXCESSIVE_LOAD: a 65537-byte frame is past what this server buffers"
    );
    let refused = |pairs: &[(u64, u64)]| parse_settings(&settings(pairs)).unwrap_err().to_string();
    assert_eq!(
        refused(&[(0x04, 1)]),
        "H3_SETTINGS_ERROR: setting 0x4 is reserved for HTTP/2"
    );
    assert_eq!(
        refused(&[(0x4242, 1), (0x4242, 2)]),
        "H3_SETTINGS_ERROR: setting 0x4242 occurs more than once"
    );
    assert_eq!(
        refused(&[(SETTING_H3_DATAGRAM, 7)]),
        "H3_SETTINGS_ERROR: setting 0x33 must be 0 or 1, not 7"
    );
    assert_eq!(
        parse_settings(&[0x33]).unwrap_err().to_string(),
        "H3_FRAME_ERROR: the SETTINGS payload ends mid-pair"
    );
    assert_eq!(
        single_varint(GOAWAY, &[]).unwrap_err().to_string(),
        "H3_FRAME_ERROR: frame type 0x7 does not carry exactly one varint"
    );
    // A reserved setting ahead of a cut-short pair is met first.
    assert_eq!(
        parse_settings(&[0x00, 0x00, 0x33]).unwrap_err().code(),
        Code::H3_SETTINGS_ERROR
    );
}

/// The reader asks for bytes until the stream ends, and a stream may not end
/// inside a frame.
#[test]
fn a_reader_ends_only_between_frames() {
    let mut budget = BufferBudget::unshared();
    let mut reader = FrameReader::new();
    assert!(matches!(reader.next(&mut budget), Ok(Next::Read)));
    reader
        .received(Some(Bytes::from(frame(GOAWAY, &[0x08]))))
        .expect("a chunk is taken");
    assert!(matches!(
        reader.next(&mut budget),
        Ok(Next::Item(Item::Frame(Frame::Goaway(8))))
    ));
    assert!(matches!(reader.next(&mut budget), Ok(Next::Read)));
    reader.received(None).expect("a clean end");
    assert!(matches!(reader.next(&mut budget), Ok(Next::End)));

    let mut reader = FrameReader::on_request_stream();
    reader
        .received(Some(Bytes::from_static(&[0x01, 0x05, b'a'])))
        .expect("a chunk is taken");
    assert!(matches!(reader.next(&mut budget), Ok(Next::Read)));
    assert_eq!(budget.held(), 5);
    let Err(Error::Protocol(violation)) = reader.received(None) else {
        panic!("a stream that ends inside a frame must be refused")
    };
    assert_eq!(violation.code(), Code::H3_FRAME_ERROR);
    assert!(violation.is_connection_error());
    reader.abandon(&mut budget);
    assert_eq!(budget.held(), 0);

    let mut reader = FrameReader::on_request_stream();
    reader.connect_completed();
    reader
        .received(Some(Bytes::from(frame(HEADERS, b"late"))))
        .expect("a chunk is taken");
    assert!(matches!(
        reader.next(&mut budget),
        Err(Error::Protocol(violation)) if violation.code() == Code::H3_FRAME_UNEXPECTED
    ));
}
