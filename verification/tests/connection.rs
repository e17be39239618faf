use std::sync::atomic::{AtomicBool, AtomicU64, Ordering};
use std::sync::{Arc, Mutex};
use std::time::{Duration, Instant};

use bytes::{Bytes, BytesMut};
use volto::datagram::{decode, encode, put_varint, Datagram, CONTEXT_ID_UDP_PAYLOAD, VARINT_MAX};
use volto::h3::connection::{
    control_preface, control_stream_finished, next_request_id, qpack_instruction, read_stream_type,
    serve_control, serve_qpack, serve_stream, stream_preface, Connection, Control,
    DatagramReceiver, DropKind, Failure, QpackProgress, QpackRead, QpackStream, Routed, Shared,
    StreamRole, TypeRead, Typed, Watch, INBOUND_QUEUE_DEPTH, REQUEST_STREAM_STEP,
};
use volto::h3::error::{
    Code, ConnectionError, StreamError, TransferError, TransportError, Violation,
};
use volto::h3::frame::{
    put_header, settings_payload, BufferBudget, Error, Frame, FrameReader, Item, Next, Settings,
    GOAWAY, SETTINGS,
};

/// Byte strings of all lengths up to 64, from a fixed pseudo-random sequence.
fn arbitrary(count: usize) -> Vec<Vec<u8>> {
    let mut state = 0x9e37_79b9_7f4a_7c15u64;
    let mut next = || {
        state = state.wrapping_mul(6364136223846793005).wrapping_add(1442695040888963407);
        (state >> 33) as u8
    };
    (0..count)
        .map(|n| (0..n % 65).map(|_| next()).collect())
        .collect()
}

fn settings(datagrams: bool) -> Item {
    Item::Frame(Frame::Settings(Settings { datagrams }))
}

#[test]
fn the_first_frame_must_be_settings() {
    let mut shared = Shared::default();

    for first in [
        Item::Frame(Frame::Goaway(0)),
        Item::Frame(Frame::MaxPushId(0)),
        Item::Data(Bytes::from_static(b"nope")),
        // A frame carrying nothing, and a frame this server cannot read,
        // are both frames: neither is SETTINGS.
        Item::Data(Bytes::new()),
        Item::Skipped {
            kind: 0x1f * 3 + 0x21,
        },
    ] {
        let error = Control::default()
            .accept(first, &mut shared)
            .expect_err("refused");
        assert_eq!(error.code(), Code::H3_MISSING_SETTINGS);
        assert!(error.is_connection_error());
    }

    assert!(Control::default().accept(settings(true), &mut shared).is_ok());
}

/// RFC 9114 §9 once the connection is up: an unknown frame type on the
/// control stream is ignored, and greasing peers send them on purpose.
#[test]
fn an_unknown_frame_after_settings_is_ignored() {
    let mut shared = Shared::default();
    let mut control = Control::default();
    control.accept(settings(true), &mut shared).expect("accepted");

    control
        .accept(
            Item::Skipped {
                kind: 0x1f * 6 + 0x21,
            },
            &mut shared,
        )
        .expect("ignored");

    // And the stream carries on working afterwards.
    control
        .accept(Item::Frame(Frame::Goaway(4)), &mut shared)
        .expect("accepted");
}

/// A grease frame is two bytes on the wire and a peer may send them for as
/// long as the connection lives, so the line they used to buy apiece was the
/// highest ratio of journal to peer bytes in this server.
///
/// What is asserted here is that every one of them reaches the sampler,
/// which is the half the log cannot show: the schedule's whole point is that
/// most occurrences produce no line, so a test reading lines could not tell
/// "sampled" from "stopped counting". The schedule itself — 1, 2, 4, 8, and
/// seventeen lines for sixty-five thousand — is
/// `logfmt::tests::a_sampler_turns_a_flood_into_a_handful_of_lines`.
#[test]
fn every_skipped_frame_is_counted_and_only_a_few_are_said_out_loud() {
    const FLOOD: u64 = 1000;

    let mut shared = Shared::default();
    let mut control = Control::default();
    control.accept(settings(true), &mut shared).expect("accepted");

    for kind in 0..FLOOD {
        control
            .accept(
                Item::Skipped {
                    kind: 0x1f * kind + 0x21,
                },
                &mut shared,
            )
            .expect("ignored");
    }

    assert_eq!(
        control.skipped(),
        FLOOD,
        "the sampler has to see every skipped frame, or the count it reports \
         is not the size of the flood"
    );
}

/// An empty DATA frame after SETTINGS is a DATA frame like any other, and
/// RFC 9114 §7.2.1 does not allow one here.
#[test]
fn an_empty_data_frame_after_settings_is_still_unexpected() {
    let mut shared = Shared::default();
    let mut control = Control::default();
    control.accept(settings(true), &mut shared).expect("accepted");

    let error = control
        .accept(Item::Data(Bytes::new()), &mut shared)
        .expect_err("refused");
    assert_eq!(error.code(), Code::H3_FRAME_UNEXPECTED);
}

/// The whole reason the control stream is read in its own task: the flag
/// the sessions hold is written by whoever parsed the frame, so there is no
/// moment at which the peer's answer is known here but not there.
#[test]
fn the_peers_settings_reach_the_shared_flag() {
    for datagrams in [true, false] {
        let mut shared = Shared::default();
        assert!(!shared.peer_datagrams(), "nothing yet");

        Control::default()
            .accept(settings(datagrams), &mut shared)
            .expect("accepted");

        assert_eq!(shared.peer_datagrams(), datagrams);
    }
}

#[test]
fn a_second_settings_frame_is_refused() {
    let mut shared = Shared::default();
    let mut control = Control::default();
    control.accept(settings(true), &mut shared).expect("accepted");

    let error = control
        .accept(settings(true), &mut shared)
        .expect_err("refused");
    assert_eq!(error.code(), Code::H3_FRAME_UNEXPECTED);
}

#[test]
fn frames_that_belong_on_a_request_stream_are_refused() {
    let mut shared = Shared::default();
    for frame in [Frame::Headers(Bytes::new()), Frame::PushPromise] {
        let mut control = Control::default();
        control.accept(settings(true), &mut shared).expect("accepted");

        let error = control
            .accept(Item::Frame(frame), &mut shared)
            .expect_err("refused");
        assert_eq!(error.code(), Code::H3_FRAME_UNEXPECTED);
    }
}

/// This server never sends PUSH_PROMISE, so no push ID was ever mentioned
/// and RFC 9114 §7.2.3 makes every CANCEL_PUSH an H3_ID_ERROR.
#[test]
fn a_cancel_push_names_a_push_that_was_never_promised() {
    let mut shared = Shared::default();
    let mut control = Control::default();
    control.accept(settings(true), &mut shared).expect("accepted");

    let error = control
        .accept(Item::Frame(Frame::CancelPush(7)), &mut shared)
        .expect_err("refused");
    assert_eq!(error.code(), Code::H3_ID_ERROR);
}

#[test]
fn a_max_push_id_may_grow_but_not_shrink() {
    let mut shared = Shared::default();
    let mut control = Control::default();
    control.accept(settings(true), &mut shared).expect("accepted");

    for push_id in [9, 9, 12] {
        control
            .accept(Item::Frame(Frame::MaxPushId(push_id)), &mut shared)
            .expect("a push ID that does not shrink is allowed");
    }
    let error = control
        .accept(Item::Frame(Frame::MaxPushId(8)), &mut shared)
        .expect_err("a smaller push ID is refused");
    assert_eq!(error.code(), Code::H3_ID_ERROR);
}

#[test]
fn qpack_encoder_instructions_are_refused_except_a_zero_capacity() {
    for (first, what) in [
        (0b1000_0000, "an Insert with Name Reference"),
        (0b1111_1111, "an Insert with Name Reference, every bit set"),
        (0b0100_0000, "an Insert with Literal Name"),
        (0b0000_0000, "a Duplicate"),
        (0b0010_0001, "a capacity of 1"),
        (0b0011_1111, "a capacity of 31 or more"),
    ] {
        let error = qpack_instruction(QpackStream::Encoder, first).expect_err(what);
        assert_eq!(error.code(), Code::QPACK_ENCODER_STREAM_ERROR, "{what}");
        assert!(error.is_connection_error(), "{what}");
    }

    let more = qpack_instruction(QpackStream::Encoder, 0b0010_0000).expect("a capacity of 0");
    assert!(!more, "a capacity of 0 is complete in its first byte");
}

#[test]
fn qpack_decoder_instructions_are_refused_except_stream_cancellation() {
    for (first, what) in [
        (0b1000_0000, "a Section Acknowledgment"),
        (0b1111_1111, "a Section Acknowledgment, every bit set"),
        (0b0000_0000, "an Insert Count Increment of 0"),
        (0b0000_0001, "an Insert Count Increment of 1"),
        (0b0011_1111, "an Insert Count Increment of 63 or more"),
    ] {
        let error = qpack_instruction(QpackStream::Decoder, first).expect_err(what);
        assert_eq!(error.code(), Code::QPACK_DECODER_STREAM_ERROR, "{what}");
        assert!(error.is_connection_error(), "{what}");
    }

    let more = qpack_instruction(QpackStream::Decoder, 0b0100_0100).expect("cancel stream 4");
    assert!(!more, "a small stream id is complete in its first byte");
    let more =
        qpack_instruction(QpackStream::Decoder, 0b0111_1111).expect("cancel a big stream");
    assert!(more, "a stream id of 63 or more continues");
}

/// Feeds `chunks` to a fresh [`QpackProgress`] in order and reports what
/// the stream drew.
///
/// The first violation, or the state left behind if there was none. Two
/// runs agree only if they refused at the same point for the same reason,
/// or accepted everything and are equally far through an integer.
fn judge_qpack(kind: QpackStream, chunks: &[&[u8]]) -> Result<QpackProgress, Violation> {
    let mut progress = QpackProgress::default();
    for chunk in chunks {
        for &byte in *chunk {
            progress.take(kind, byte)?;
        }
    }
    Ok(progress)
}

/// The peer chooses where its QPACK stream is cut, and the verdict may not
/// depend on that.
///
/// `serve_qpack` judges whatever `read_chunk` hands it, and a peer may send
/// one instruction a byte at a time or a hundred in one packet. The state
/// that has to survive a cut is an integer still running from the last
/// instruction, which is the only thing an instruction leaves behind.
///
/// Fed as one run and as an arbitrary split of the same bytes, in order.
/// The oracle is the whole run rather than a second implementation, which
/// is what makes this a property of the cutting alone.
#[test]
fn a_qpack_stream_is_judged_the_same_however_it_is_cut() {
    let samples = arbitrary(400);
    for (n, bytes) in samples.iter().enumerate() {
        // Mostly instructions this server takes, so that a run gets past its
        // first byte.
        let bytes: Vec<u8> = bytes
            .iter()
            .map(|byte| if byte % 5 == 0 { *byte } else { [0x20, 0x7f, 0x44, 0x83][usize::from(byte % 4)] })
            .collect();
        let cuts = &samples[(n * 7) % samples.len()];
        for kind in [QpackStream::Encoder, QpackStream::Decoder] {
            // Each cut is somewhere in the sequence, including both ends, so an
            // empty fragment is a shape the peer can send and this can produce.
            let mut points: Vec<usize> = cuts
                .iter()
                .map(|cut| usize::from(*cut) % (bytes.len() + 1))
                .collect();
            points.sort_unstable();

            let mut fragments: Vec<&[u8]> = Vec::new();
            let mut at = 0usize;
            for point in points {
                fragments.push(&bytes[at..point]);
                at = point;
            }
            fragments.push(&bytes[at..]);

            assert_eq!(
                judge_qpack(kind, &fragments),
                judge_qpack(kind, &[&bytes[..]])
            );
        }
    }
}

#[test]
fn a_goaway_identifier_may_shrink_but_not_grow() {
    let mut shared = Shared::default();
    let mut control = Control::default();
    control.accept(settings(true), &mut shared).expect("accepted");

    control
        .accept(Item::Frame(Frame::Goaway(12)), &mut shared)
        .expect("accepted");
    control
        .accept(Item::Frame(Frame::Goaway(8)), &mut shared)
        .expect("a smaller identifier is allowed");

    let error = control
        .accept(Item::Frame(Frame::Goaway(9)), &mut shared)
        .expect_err("refused");
    assert_eq!(error.code(), Code::H3_ID_ERROR);
}

/// The stream ids of client-initiated bidirectional streams are multiples
/// of four, so "the next one" is four past the last (RFC 9000 §2.1).
#[test]
fn the_goaway_identifier_is_the_first_request_not_served() {
    assert_eq!(REQUEST_STREAM_STEP, 4);
    assert_eq!(next_request_id(None), 0);
    assert_eq!(next_request_id(Some(0)), 4);
    assert_eq!(next_request_id(Some(16)), 20);
}

/// The identifier is written as a QUIC varint, so the arithmetic must stay
/// inside one however absurd the stream id it starts from. A saturating
/// `u64::MAX` would reach `put_varint`'s assertion instead of the wire.
#[test]
fn the_goaway_identifier_stays_inside_a_varint() {
    let max = VARINT_MAX;

    for last_accepted in [max - REQUEST_STREAM_STEP, max, u64::MAX] {
        let identifier = next_request_id(Some(last_accepted));
        assert!(
            identifier <= max,
            "{last_accepted} produced {identifier}, past the varint maximum"
        );
        // Encodable is the property that matters: this is the call
        // `shutdown` makes.
        let mut buf = BytesMut::new();
        put_varint(&mut buf, identifier);
    }

    assert_eq!(next_request_id(Some(max - REQUEST_STREAM_STEP)), max);
}

/// Two tasks can reach a violation at the same moment; only one of them
/// wins, and the winner has to be the one the close and the report agree
/// on.
#[test]
fn only_the_first_violation_is_kept_and_it_is_the_one_reported() {
    let mut shared = Shared::default();

    let first = Violation::connection(Code::H3_FRAME_UNEXPECTED, "the first one");
    let second = Violation::connection(Code::H3_ID_ERROR, "the second one");

    assert_eq!(shared.record(first.clone()), first);
    // The second caller is told what will actually be on the wire, not what
    // it asked for.
    let reported = shared.record(second);
    assert_eq!(reported, first);
    assert_eq!(reported.code(), Code::H3_FRAME_UNEXPECTED);
}

/// A datagram as it arrives on the wire: two varints and a payload.
fn datagram(quarter_stream_id: u64, context_id: u64, payload: &[u8]) -> Datagram {
    decode(encode(quarter_stream_id, context_id, payload)).expect("a well-formed datagram")
}

/// The routing rule itself: a datagram reaches the session that claimed its
/// Quarter Stream ID and no other.
///
/// The bug class this guards against is silent -- a session receiving
/// another's traffic looks exactly like a session that works -- so both
/// halves are asserted: what each receiver got, and that neither got the
/// other's.
#[test]
fn a_datagram_reaches_the_session_that_claimed_its_quarter_stream_id() {
    let mut shared = Shared::default();
    let mut first = shared.register_datagrams(1).expect("a free id");
    let mut second = shared.register_datagrams(2).expect("a free id");

    shared.deliver(datagram(1, CONTEXT_ID_UDP_PAYLOAD, b"for one"));
    shared.deliver(datagram(2, CONTEXT_ID_UDP_PAYLOAD, b"for two"));

    assert_eq!(
        first.recv(&mut shared).as_deref(),
        Some(b"for one".as_slice())
    );
    assert_eq!(
        second.recv(&mut shared).as_deref(),
        Some(b"for two".as_slice())
    );
    assert!(first.recv(&mut shared).is_none(), "one payload each");
    assert!(second.recv(&mut shared).is_none(), "one payload each");
}

/// The claim lasts exactly as long as the receiver: this is what keeps the
/// table from leaking an entry per session, and what makes a datagram for a
/// session that has ended a drop rather than a delivery to a queue nobody
/// reads.
#[test]
fn dropping_the_receiver_gives_up_the_quarter_stream_id() {
    let mut shared = Shared::default();

    let inbound = shared.register_datagrams(1).expect("a free id");
    assert!(
        shared.register_datagrams(1).is_none(),
        "a claimed id must not be handed out twice"
    );
    inbound.release(&mut shared);

    assert_eq!(shared.sessions(), 0, "the entry must be gone");

    // Which is observable from the outside: the id is free again, and a
    // datagram that arrives in between is dropped instead of piling up in
    // the queue the finished session left behind.
    shared.deliver(datagram(1, CONTEXT_ID_UDP_PAYLOAD, b"too late"));
    let mut reopened = shared.register_datagrams(1).expect("free again");
    assert!(
        reopened.recv(&mut shared).is_none(),
        "a new session must not inherit a finished one's datagrams"
    );
}

/// The same claim over a churn of sessions: the table returns to its
/// baseline every time, rather than to its baseline plus one.
///
/// The single-session test above proves the entry goes; this proves the
/// table is *flat*, which is the property a server that runs for weeks
/// depends on and the one a single cycle cannot tell apart from a leak. A
/// live session is held throughout so the baseline is non-empty: a table
/// that grew by an entry per session would still be "back to one" after the
/// first cycle and only diverge after many, which is exactly the shape that
/// hides at N = 1.
#[test]
fn the_routing_table_is_flat_across_a_churn_of_sessions() {
    const CHURN: u64 = 512;

    let mut shared = Shared::default();
    let held = shared.register_datagrams(0).expect("a free id");

    for id in 1..=CHURN {
        let inbound = shared.register_datagrams(id).expect("a free id");
        assert_eq!(
            shared.sessions(),
            2,
            "one held session and one live one, whatever id {id} we are on"
        );
        inbound.release(&mut shared);
        assert_eq!(
            shared.sessions(),
            1,
            "session {id} took its entry with it"
        );
    }

    held.release(&mut shared);
    assert_eq!(
        shared.sessions(),
        0,
        "nothing is left once the last session has gone"
    );
}

/// The same table with the router and the sessions running at once.
///
/// Every test above drives it one step at a time, which is the one ordering the
/// server never produces: datagrams are routed on a task of their own while the
/// sessions on the connection claim and give up their Quarter Stream IDs on
/// theirs, so a delivery and a claim ending race by construction. Three failures
/// could hide in that race and all three are silent -- a payload handed to the
/// session next door, an entry left behind by a receiver that was being delivered
/// to as it ended, and an id a session cannot claim again because its own entry
/// outlived it -- so all three are asserted.
#[test]
fn delivery_racing_registration_neither_misroutes_nor_leaks() {
    const SESSIONS: u64 = 24;
    const ROUNDS: usize = 128;
    /// How long a session waits for its first delivery before the run is judged
    /// to have failed rather than to have been unlucky.
    const FIRST_DELIVERY: Duration = Duration::from_secs(10);

    let runtime = tokio::runtime::Builder::new_multi_thread()
        .worker_threads(4)
        .build()
        .expect("a runtime");
    let shared = Arc::new(Mutex::new(Shared::default()));
    let stop = Arc::new(AtomicBool::new(false));
    let sent = Arc::new(AtomicU64::new(0));

    // The router: every id, over and over, whether or not anyone is there.
    let router = runtime.spawn({
        let shared = shared.clone();
        let stop = stop.clone();
        let sent = sent.clone();
        async move {
            let deadline = Instant::now() + Duration::from_secs(30);
            while !stop.load(Ordering::Relaxed) && Instant::now() < deadline {
                for id in 0..SESSIONS {
                    // The payload names the session it is for, which is how a
                    // misroute is told from an ordinary drop.
                    shared.lock().expect("the table").deliver(datagram(
                        id,
                        CONTEXT_ID_UDP_PAYLOAD,
                        &id.to_be_bytes(),
                    ));
                    sent.fetch_add(1, Ordering::Relaxed);
                }
                tokio::task::yield_now().await;
            }
        }
    });

    // The sessions: each one opens, drains what it was given, and closes.
    let sessions: Vec<_> = (0..SESSIONS)
        .map(|id| {
            let shared = shared.clone();
            runtime.spawn(async move {
                let mut received = 0u64;
                for round in 0..ROUNDS {
                    let mut inbound = shared
                        .lock()
                        .expect("the table")
                        .register_datagrams(id)
                        .unwrap_or_else(|| {
                            panic!("session {id} could not re-claim its own id on round {round}")
                        });

                    // The first round waits for a delivery, so that every session
                    // starts from one it can account for.
                    let deadline = Instant::now() + FIRST_DELIVERY;
                    loop {
                        let next = inbound.recv(&mut shared.lock().expect("the table"));
                        match next {
                            Some(payload) => {
                                assert_eq!(
                                    payload.as_ref(),
                                    id.to_be_bytes().as_slice(),
                                    "session {id} was handed another session's payload"
                                );
                                received += 1;
                            }
                            None if round == 0 && received == 0 => {
                                assert!(
                                    Instant::now() < deadline,
                                    "session {id} was not delivered to within {FIRST_DELIVERY:?}"
                                );
                                tokio::task::yield_now().await;
                            }
                            None => break,
                        }
                    }
                    inbound.release(&mut shared.lock().expect("the table"));
                    tokio::task::yield_now().await;
                }
                received
            })
        })
        .collect();

    let mut received = 0u64;
    for session in sessions {
        received += runtime.block_on(session).expect("session task");
    }
    stop.store(true, Ordering::Relaxed);
    runtime.block_on(router).expect("router task");

    assert_eq!(
        shared.lock().expect("the table").sessions(),
        0,
        "an entry outlived the receiver that owned it"
    );
    assert!(
        received > 0,
        "nothing was ever routed, so the race was never run"
    );
    assert!(
        received <= sent.load(Ordering::Relaxed),
        "more payloads arrived than were ever sent"
    );
}

/// The same table with deliveries and claims interleaved in every order a lock
/// around it allows.
///
/// Three failures could hide there and all three are silent -- a payload handed
/// to the session next door, an entry left behind by a receiver that was being
/// delivered to as it ended, and an id a session cannot claim again because its
/// own entry outlived it -- so all three are asserted.
#[test]
fn delivery_interleaved_with_registration_neither_misroutes_nor_leaks() {
    const SESSIONS: u64 = 24;
    const ROUNDS: usize = 128;

    let mut shared = Shared::default();
    let mut held: Vec<Option<DatagramReceiver>> = (0..SESSIONS).map(|_| None).collect();
    let mut state = 7u64;
    let mut sent = 0u64;
    let mut received = 0u64;

    for round in 0..ROUNDS {
        for id in 0..SESSIONS {
            state = state.wrapping_mul(6364136223846793005).wrapping_add(1442695040888963407);
            let session = (state >> 40) % SESSIONS;
            let slot = &mut held[session as usize];
            match slot.take() {
                None => {
                    let claimed = shared.register_datagrams(session).unwrap_or_else(|| {
                        panic!("session {session} could not re-claim its own id on round {round}")
                    });
                    *slot = Some(claimed);
                }
                Some(mut inbound) => {
                    while let Some(payload) = inbound.recv(&mut shared) {
                        assert_eq!(
                            payload.as_ref(),
                            session.to_be_bytes().as_slice(),
                            "session {session} was handed another session's payload"
                        );
                        received += 1;
                    }
                    inbound.release(&mut shared);
                }
            }
            // The payload names the session it is for, which is how a misroute is
            // told from an ordinary drop.
            shared.deliver(datagram(id, CONTEXT_ID_UDP_PAYLOAD, &id.to_be_bytes()));
            sent += 1;
        }
    }
    for inbound in held.into_iter().flatten() {
        inbound.release(&mut shared);
    }

    assert_eq!(
        shared.sessions(),
        0,
        "an entry outlived the receiver that owned it"
    );
    assert!(received > 0, "nothing was ever routed");
    assert!(received + shared.dropped_datagrams() <= sent, "more arrived than were ever sent");
}

/// Both of the drops RFC 9297 §2.1 and RFC 9298 §5 call for, and the
/// session surviving each of them.
#[test]
fn unknown_ids_are_dropped_and_the_session_survives() {
    let mut shared = Shared::default();
    let mut inbound = shared.register_datagrams(1).expect("a free id");

    // A Quarter Stream ID no session owns: legitimate whenever a session
    // closes with packets still in flight.
    shared.deliver(datagram(9, CONTEXT_ID_UDP_PAYLOAD, b"nowhere"));
    // A context this server never registered (RFC 9298 §5).
    shared.deliver(datagram(1, 9, b"unknown context"));

    assert!(
        inbound.recv(&mut shared).is_none(),
        "neither may reach a session"
    );
    assert_eq!(
        shared.dropped_datagrams(),
        2,
        "both drops are counted for the closing line"
    );

    shared.deliver(datagram(1, CONTEXT_ID_UDP_PAYLOAD, b"still here"));
    assert_eq!(
        inbound.recv(&mut shared).as_deref(),
        Some(b"still here".as_slice())
    );
    assert_eq!(
        shared.dropped_datagrams(),
        2,
        "a delivery is not a drop"
    );
}

/// RFC 9298 §5 lets a client send UDP payloads before the response arrives,
/// and lets the proxy buffer them. Claiming the Quarter Stream ID before the
/// target socket exists is what turns that permission into behaviour: a
/// datagram the router delivers while the session loop has not started yet
/// must still be there when it does — once, in order, and without a consumer
/// running.
///
/// Deterministic on purpose: forcing that ordering through a live server
/// would mean racing the resolver, so the guarantee is asserted where it
/// actually lives, on the routing table and its queue.
#[test]
fn datagrams_delivered_before_the_session_starts_are_kept() {
    let mut shared = Shared::default();
    let mut inbound = shared.register_datagrams(9).expect("a free id");

    for payload in [b"first".as_slice(), b"second".as_slice()] {
        shared.deliver(datagram(9, CONTEXT_ID_UDP_PAYLOAD, payload));
    }

    // The session loop starts only now.
    assert_eq!(
        inbound.recv(&mut shared).as_deref(),
        Some(b"first".as_slice())
    );
    assert_eq!(
        inbound.recv(&mut shared).as_deref(),
        Some(b"second".as_slice())
    );
    assert!(
        inbound.recv(&mut shared).is_none(),
        "a buffered datagram must be delivered once, not replayed"
    );
}

/// The other half of the same design: the buffer is bounded by
/// [`INBOUND_QUEUE_DEPTH`], and the router drops rather than blocks or grows
/// when a session is not draining it.
#[test]
fn the_early_buffer_is_bounded_and_the_overflow_is_dropped() {
    let mut shared = Shared::default();
    let mut inbound = shared.register_datagrams(9).expect("a free id");

    for index in 0..INBOUND_QUEUE_DEPTH {
        shared.deliver(datagram(
            9,
            CONTEXT_ID_UDP_PAYLOAD,
            &[index as u8],
        ));
    }
    shared.deliver(datagram(
        9,
        CONTEXT_ID_UDP_PAYLOAD,
        b"past the depth",
    ));

    for index in 0..INBOUND_QUEUE_DEPTH {
        assert_eq!(
            inbound.recv(&mut shared).as_deref(),
            Some([index as u8].as_slice()),
            "everything within the depth is kept, in order"
        );
    }
    assert!(
        inbound.recv(&mut shared).is_none(),
        "the queue must stop accepting at its depth rather than grow"
    );
    assert_eq!(
        shared.dropped_datagrams(),
        1,
        "the overflow is the one drop this connection saw, and it is counted"
    );
}

/// A drop shape speaks on the doubling schedule; every drop counts.
///
/// Eight drops rather than three, because the schedule itself is the
/// assertion now: a report has to land on the 1st, 2nd, 4th and 8th drop
/// and on none of the others, and each has to carry the running total. The
/// two mutations a weaker test would let through -- reporting always, and
/// reporting on every call but the first -- both produce a sequence this
/// one names as wrong.
#[test]
fn a_drop_shape_is_reported_on_a_doubling_schedule_and_counted_every_time() {
    let mut shared = Shared::default();
    let mut reports: Vec<u64> = Vec::new();
    for _ in 0..8 {
        reports.extend(shared.count_drop(DropKind::Unroutable));
    }
    assert_eq!(
        reports,
        vec![1, 2, 4, 8],
        "the first drop is as loud as it ever was, and the reports that follow \
         say how far the count has got"
    );
    assert_eq!(
        shared.dropped_datagrams(),
        8,
        "every drop is counted, reported or not"
    );
    // A different shape keeps its own schedule, from its own first drop.
    reports.extend(shared.count_drop(DropKind::QueueFull));
    assert_eq!(reports, vec![1, 2, 4, 8, 1], "each shape speaks for itself");
}

/// RFC 9114 §6.2.1 stands while the connection does; once it is over, the
/// same FIN is the peer saying goodbye a packet early.
#[test]
fn a_control_stream_fin_is_a_fault_only_while_the_connection_lives() {
    let violation = control_stream_finished(false).expect("a live connection must report it");
    assert_eq!(violation.code(), Code::H3_CLOSED_CRITICAL_STREAM);
    assert!(violation.is_connection_error());

    assert!(
        control_stream_finished(true).is_none(),
        "a connection already closed needs no fault report"
    );
}

/// A frame as it goes on the wire.
fn frame(kind: u64, payload: &[u8]) -> Vec<u8> {
    let mut out = BytesMut::new();
    put_header(&mut out, kind, payload.len() as u64);
    out.extend_from_slice(payload);
    out.to_vec()
}

/// What this server opens its streams with, byte for byte, and what a peer reads
/// from it.
#[test]
fn our_streams_open_with_their_types() {
    assert_eq!(&stream_preface(2)[..], &[0x02]);
    assert_eq!(&stream_preface(3)[..], &[0x03]);

    let preface = control_preface();
    assert_eq!(preface[0], 0x00);
    let mut reader = FrameReader::new();
    let mut budget = BufferBudget::unshared();
    reader
        .received(Some(preface.slice(1..)))
        .expect("a chunk is taken");
    assert!(matches!(
        reader.next(&mut budget),
        Ok(Next::Item(Item::Frame(Frame::Settings(Settings {
            datagrams: true
        }))))
    ));
}

/// A request at or past the GOAWAY is not served, one below it is, and the
/// identifier never grows.
#[test]
fn a_goaway_draws_the_line() {
    let mut connection = Connection::new();
    assert!(connection.accept(0));
    assert!(connection.accept(8));
    assert_eq!(&connection.shutdown()[..], &[0x07, 0x01, 12]);
    assert!(!connection.accept(12));
    assert!(!connection.accept(400));
    assert!(connection.accept(4), "opened before, arriving late");
    assert_eq!(&connection.shutdown()[..], &[0x07, 0x01, 8]);
    assert!(!connection.accept(8));

    assert_eq!(&Connection::new().shutdown()[..], &[0x07, 0x01, 0]);
    let close = Connection::new().close_quietly("no request within the timeout");
    assert_eq!(close.code, 0x100);
    assert_eq!(close.reason, "no request within the timeout");
    assert_eq!(
        Connection::farewell(),
        (0x100, "connection closed by the server")
    );
}

/// The type of a stream is read as soon as it is there, and not before.
#[test]
fn a_stream_type_is_read_when_it_is_whole() {
    assert_eq!(read_stream_type(&[]), TypeRead::More(1));
    assert_eq!(read_stream_type(&[0x02]), TypeRead::Type(2));
    assert_eq!(read_stream_type(&[0x40]), TypeRead::More(1));
    assert_eq!(read_stream_type(&[0x80, 0x00]), TypeRead::More(2));
    assert_eq!(read_stream_type(&[0xc0]), TypeRead::More(7));
    assert_eq!(read_stream_type(&[0x41, 0x00]), TypeRead::Type(0x100));
}

/// What each kind of unidirectional stream is served as.
#[test]
fn unidirectional_streams_are_told_apart_by_their_type() {
    let mut shared = Shared::default();
    let mut serve = |typed: Typed| serve_stream(&mut shared, typed);
    assert!(matches!(serve(Typed::Ended), StreamRole::Ignore));
    assert!(matches!(serve(Typed::Expired), StreamRole::Stop(0x103)));
    assert!(matches!(serve(Typed::Type(0x21)), StreamRole::Stop(0x103)));
    assert!(matches!(serve(Typed::Type(0)), StreamRole::Control));
    assert!(matches!(
        serve(Typed::Type(2)),
        StreamRole::Qpack(QpackStream::Encoder)
    ));
    assert!(matches!(
        serve(Typed::Type(3)),
        StreamRole::Qpack(QpackStream::Decoder)
    ));

    // The first fault closes the connection, and the ones behind it report the
    // first.
    for typed in [Typed::Type(0), Typed::Type(1), Typed::Type(2), Typed::Type(3)] {
        let StreamRole::Close(close) = serve(typed) else {
            panic!("{typed:?} must close the connection")
        };
        assert_eq!(close.code, 0x103);
        assert_eq!(
            close.reason,
            "H3_STREAM_CREATION_ERROR: a second control stream"
        );
    }
    for (stream_type, reason) in [
        (1, "H3_STREAM_CREATION_ERROR: a client opened a push stream"),
        (2, "H3_STREAM_CREATION_ERROR: a second QPACK stream of the same kind"),
        (3, "H3_STREAM_CREATION_ERROR: a second QPACK stream of the same kind"),
    ] {
        let mut shared = Shared::default();
        let _ = serve_stream(&mut shared, Typed::Type(2));
        let _ = serve_stream(&mut shared, Typed::Type(3));
        let StreamRole::Close(close) = serve_stream(&mut shared, Typed::Type(stream_type)) else {
            panic!("stream type {stream_type} must close the connection")
        };
        assert_eq!(close.reason, reason);
    }
}

/// How everything that can be read from the control stream is answered.
#[test]
fn a_control_stream_is_watched_to_its_end() {
    let serve = |read: Result<Option<Item>, Error>, closed: bool| {
        let mut shared = Shared::default();
        let mut control = Control::default();
        control.accept(settings(false), &mut shared).expect("accepted");
        serve_control(&mut control, &mut shared, read, closed)
    };
    let reason = |watch: Watch| match watch {
        Watch::Close(close) => close.reason,
        other => panic!("expected a close, got {other:?}"),
    };

    assert!(matches!(
        serve(Ok(Some(Item::Skipped { kind: 0x21 })), false),
        Watch::Continue(Some(1))
    ));
    assert!(matches!(
        serve(Ok(Some(Item::Frame(Frame::Goaway(0)))), false),
        Watch::Continue(None)
    ));
    assert_eq!(
        reason(serve(Ok(Some(Item::Frame(Frame::PushPromise))), false)),
        "H3_FRAME_UNEXPECTED: a PUSH_PROMISE frame"
    );
    assert!(matches!(serve(Ok(None), true), Watch::Stop));
    assert_eq!(
        reason(serve(Ok(None), false)),
        "H3_CLOSED_CRITICAL_STREAM: the peer closed its control stream"
    );
    // A fault of one stream is one of the connection here.
    let Watch::Close(close) = serve(
        Err(Error::Protocol(Violation::field_section_too_large("too much"))),
        false,
    ) else {
        panic!("a fault must close the connection")
    };
    assert!(matches!(
        close.error,
        ConnectionError::Local(violation) if violation.is_connection_error()
    ));
    assert!(matches!(
        serve(
            Err(Error::Stream(StreamError::Connection(
                ConnectionError::Timeout
            ))),
            false
        ),
        Watch::Stop
    ));
    assert_eq!(
        reason(serve(
            Err(Error::Stream(StreamError::RemoteTerminate {
                code: Code::H3_NO_ERROR
            })),
            false
        )),
        "H3_CLOSED_CRITICAL_STREAM: the peer reset its control stream: \
         peer terminated the stream: H3_NO_ERROR"
    );
}

/// The words each fault on the control stream comes with.
#[test]
fn control_stream_faults_say_what_was_wrong() {
    let refused = |items: Vec<Item>| {
        let mut shared = Shared::default();
        let mut control = Control::default();
        let mut last = None;
        for item in items {
            last = control.accept(item, &mut shared).err();
        }
        last.expect("refused").to_string()
    };
    assert_eq!(
        refused(vec![Item::Frame(Frame::PushPromise)]),
        "H3_MISSING_SETTINGS: the control stream did not begin with SETTINGS"
    );
    assert_eq!(
        refused(vec![
            settings(false),
            Item::Frame(Frame::Goaway(8)),
            Item::Frame(Frame::Goaway(12))
        ]),
        "H3_ID_ERROR: a GOAWAY identifier that grew to 12"
    );
    assert_eq!(
        refused(vec![
            settings(false),
            Item::Frame(Frame::MaxPushId(8)),
            Item::Frame(Frame::MaxPushId(7))
        ]),
        "H3_ID_ERROR: a MAX_PUSH_ID that shrank to 7"
    );
    assert_eq!(
        refused(vec![settings(false), Item::Frame(Frame::CancelPush(3))]),
        "H3_ID_ERROR: a CANCEL_PUSH for push ID 3, which was never promised"
    );
}

/// How everything that can be read from a QPACK stream is answered.
#[test]
fn a_qpack_stream_is_watched_to_its_end() {
    let serve = |read: QpackRead, closed: bool| {
        let mut shared = Shared::default();
        let mut progress = QpackProgress::default();
        serve_qpack(&mut progress, &mut shared, QpackStream::Encoder, read, closed)
    };
    let reason = |watch: Watch| match watch {
        Watch::Close(close) => close.reason,
        other => panic!("expected a close, got {other:?}"),
    };

    assert!(matches!(
        serve(QpackRead::Chunk(Bytes::from_static(&[0x20, 0x20])), false),
        Watch::Continue(None)
    ));
    assert_eq!(
        reason(serve(QpackRead::Chunk(Bytes::from_static(&[0x20, 0x21])), false)),
        "QPACK_ENCODER_STREAM_ERROR: a dynamic table capacity above the zero this server allows"
    );
    assert_eq!(
        reason(serve(QpackRead::Ended, false)),
        "H3_CLOSED_CRITICAL_STREAM: the peer closed its QPACK encoder stream"
    );
    assert!(matches!(serve(QpackRead::Ended, true), Watch::Stop));
    let failed = || {
        QpackRead::Failed(TransferError::Terminated {
            code: 0,
            text: "stream reset by peer: error 0".to_owned(),
        })
    };
    assert_eq!(
        reason(serve(failed(), false)),
        "H3_CLOSED_CRITICAL_STREAM: the peer reset its QPACK encoder stream: \
         stream reset by peer: error 0"
    );
    assert!(matches!(serve(failed(), true), Watch::Stop));

    // An integer of nine continuation bytes is taken, and a tenth is not.
    let mut bytes = vec![0x7f];
    bytes.extend_from_slice(&[0x80; 8]);
    bytes.push(0x01);
    let mut progress = QpackProgress::default();
    progress.take_all(QpackStream::Decoder, &bytes).expect("taken");
    assert_eq!(progress, QpackProgress { continuing: false, continuation: 9 });
    let mut bytes = vec![0x7f];
    bytes.extend_from_slice(&[0x80; 10]);
    assert_eq!(
        QpackProgress::default()
            .take_all(QpackStream::Decoder, &bytes)
            .unwrap_err()
            .to_string(),
        "QPACK_DECODER_STREAM_ERROR: an integer past 62 bits"
    );
}

/// A datagram is delivered, dropped, or the end of the connection.
#[test]
fn datagrams_are_routed_by_what_they_carry() {
    let mut shared = Shared::default();
    let mut inbound = shared.register_datagrams(5).expect("a free id");
    assert!(matches!(
        shared.route_datagram(encode(5, 0, b"payload")),
        Routed::Continue(None)
    ));
    assert_eq!(inbound.recv(&mut shared).as_deref(), Some(&b"payload"[..]));

    // Cut short of its Context ID.
    assert!(matches!(
        shared.route_datagram(Bytes::from_static(&[0x05])),
        Routed::Continue(Some((DropKind::Malformed, 1)))
    ));
    assert!(matches!(
        shared.route_datagram(encode(6, 0, b"")),
        Routed::Continue(Some((DropKind::Unroutable, 1)))
    ));
    assert!(matches!(
        shared.route_datagram(encode(5, 2, b"")),
        Routed::Continue(Some((DropKind::UnknownContext, 1)))
    ));
    assert_eq!(shared.dropped_datagrams(), 3);

    // Nothing to attribute it by.
    let Routed::Break(close) = shared.route_datagram(Bytes::new()) else {
        panic!("an empty datagram must close the connection")
    };
    assert_eq!(close.code, 0x33);
    assert_eq!(
        close.reason,
        "H3_DATAGRAM_ERROR: an unusable HTTP datagram: the Quarter Stream ID is missing"
    );
}

/// A connection this server closed is reported with the violation it was closed
/// over, and any other with what the transport says.
#[test]
fn a_local_close_is_reported_with_its_violation() {
    let mut shared = Shared::default();
    assert!(matches!(
        shared.interpret(TransportError::LocallyClosed),
        ConnectionError::Transport(TransportError::LocallyClosed)
    ));
    let close = shared.handshake_expired();
    assert_eq!(
        close.reason,
        "H3_STREAM_CREATION_ERROR: the HTTP/3 handshake did not complete within one idle timeout"
    );
    assert!(matches!(
        shared.interpret(TransportError::LocallyClosed),
        ConnectionError::Local(violation) if violation.code() == Code::H3_STREAM_CREATION_ERROR
    ));
    assert!(matches!(
        shared.interpret(TransportError::TimedOut),
        ConnectionError::Timeout
    ));

    let mut shared = Shared::default();
    assert!(matches!(
        shared.critical_write(TransferError::ConnectionLost(TransportError::TimedOut)),
        Failure::Lost(ConnectionError::Timeout)
    ));
    assert!(matches!(
        shared.critical_write(TransferError::Other { text: "closed stream".to_owned() }),
        Failure::Close(close)
            if close.reason == "H3_CLOSED_CRITICAL_STREAM: closed stream" && close.code == 0x104
    ));
}

/// A whole control stream, from its bytes to what it says.
#[test]
fn a_control_stream_is_read_and_judged() {
    let mut wire = settings_payload().to_vec();
    wire = frame(SETTINGS, &wire);
    wire.extend_from_slice(&frame(GOAWAY, &[0x10]));
    let mut reader = FrameReader::new();
    let mut budget = BufferBudget::unshared();
    let mut shared = Shared::default();
    let mut control = Control::default();
    reader.received(Some(Bytes::from(wire))).expect("a chunk is taken");
    while let Ok(Next::Item(item)) = reader.next(&mut budget) {
        control.accept(item, &mut shared).expect("accepted");
    }
    assert!(shared.peer_datagrams());
}
