use volto::config::{
    CongestionControl, Limits, DEFAULT_MAX_CONNECTIONS, DEFAULT_MAX_STREAMS_BIDI,
    DEFAULT_MAX_TARGETS_PER_CONN,
};
use volto::h3::error::{Code, ConnectionError};
use volto::ip::{IpAddr, SocketAddr};
use volto::quic::{
    closing, fd_budget, fd_budget_is_tight, initial_bidi_streams, peer_info, request_socket_buffer,
    socket_buffer_was_capped, transport_config, warn_if_fd_budget_is_tight, AuthGate, Ended,
    Gates, Handshake, Live, Registration, Roster, SocketBuffer, Verdict, CRYPTO_BUFFER_SIZE,
    DATAGRAM_RECEIVE_BUFFER, FD_HEADROOM, INITIAL_BIDI_STREAMS, MAX_PEER_UNI_STREAMS, SEND_WINDOW,
};

/// A documentation address with `n` in its last octet.
fn peer(n: u8) -> SocketAddr {
    SocketAddr {
        ip: IpAddr::V4([192, 0, 2, n]),
        port: 443,
        flowinfo: 0,
        scope_id: 0,
    }
}

/// A gate a request has already passed.
fn authenticated_gate(gates: &mut Gates) -> AuthGate {
    let gate = AuthGate::closed(gates);
    assert!(gate.mark(gates), "the first pass through a gate is the first");
    gate
}

/// Registers `count` connections that have never authenticated.
fn park(roster: &mut Roster, gates: &mut Gates, count: u8) -> Vec<Registration> {
    (0..count)
        .map(|n| roster.register(peer(n), AuthGate::closed(gates)))
        .collect()
}

/// The addresses of those that lose their slots.
fn evicted(roster: &mut Roster, gates: &Gates, cap: usize) -> Vec<SocketAddr> {
    roster
        .evict_until_below(cap, gates)
        .iter()
        .map(|slot| slot.remote)
        .collect()
}

/// Evicts one connection, if one may be.
fn evict_one(roster: &mut Roster, gates: &Gates) -> Option<SocketAddr> {
    let cap = roster.len();
    let victims = evicted(roster, gates, cap);
    assert!(victims.len() <= 1);
    victims.first().copied()
}

/// Limits with a number of request streams.
fn limits(max_streams_bidi: u32) -> Limits {
    Limits {
        max_connections: DEFAULT_MAX_CONNECTIONS,
        max_targets_per_conn: DEFAULT_MAX_TARGETS_PER_CONN,
        max_streams_bidi,
        max_idle_timeout_ms: 30_000,
        keep_alive_interval_ms: 10_000,
        initial_rtt_ms: 150,
        initial_mtu: 1350,
        mtu_discovery: true,
        mtu_upper_bound: 1464,
        congestion_control: CongestionControl::Bbr,
        socket_recv_buffer: 2 * 1024 * 1024,
        socket_send_buffer: 2 * 1024 * 1024,
    }
}

/// The clamp only ever lowers: an operator who wants fewer gets fewer.
///
/// `min` rather than a flat constant, so a configuration below the clamp is
/// honoured from the handshake onwards rather than being quietly raised to
/// sixteen for as long as the connection went unauthenticated.
#[test]
fn a_configured_allowance_below_the_clamp_is_not_raised_to_it() {
    for configured in [1, 7, INITIAL_BIDI_STREAMS] {
        let limits = limits(configured);
        assert_eq!(
            initial_bidi_streams(&limits),
            configured,
            "a configured allowance of {configured} must reach the wire as itself"
        );
    }

    assert_eq!(
        initial_bidi_streams(&limits(INITIAL_BIDI_STREAMS + 1)),
        INITIAL_BIDI_STREAMS,
        "and one above it must not"
    );
}

/// The check has to fire on the configuration that actually bites: a macOS
/// default limit of 256 with the default quota of 256, where one connection
/// at its quota consumes every descriptor the process has.
///
/// And on the shipped quotas under a 65536-descriptor limit, which is the
/// case that made the old single-connection arithmetic wrong (review M7):
/// 256 connections x 256 tunnels is that limit exactly, so the defaults
/// leave not one descriptor of headroom and the check said nothing. That
/// pairing is synthetic now that the shipped unit sets 131072, and is kept
/// because the product landing on the limit is the tightest case there is.
#[test]
fn a_tight_fd_budget_is_recognised() {
    assert!(fd_budget_is_tight(256, 1, 256), "the macOS default pairing");
    assert!(fd_budget_is_tight(1024, 1, 1024));
    assert!(fd_budget_is_tight(64, 1, 1));

    assert!(
        fd_budget_is_tight(
            65536,
            DEFAULT_MAX_CONNECTIONS,
            DEFAULT_MAX_TARGETS_PER_CONN
        ),
        "the shipped quotas against a limit their product meets exactly: {} \
         x {} leaves nothing over",
        DEFAULT_MAX_CONNECTIONS,
        DEFAULT_MAX_TARGETS_PER_CONN
    );
}

/// `max_connections = 0` is "no cap", which has no product to check, so the
/// budget falls back to one connection's quota rather than to zero.
#[test]
fn an_uncapped_connection_count_falls_back_to_one_connection() {
    assert_eq!(fd_budget(0, 256), fd_budget(1, 256));
    assert!(!fd_budget_is_tight(1024, 0, 256));
    assert!(fd_budget_is_tight(256, 0, 256));
}

/// The read-back convention differs by platform, so the judgement is written
/// as `<` and has to stay that way.
///
/// Linux reports twice what it granted; macOS reports it unchanged. The two
/// middle cases below are the ones an equality check would get wrong.
#[test]
fn a_capped_socket_buffer_is_recognised() {
    // Linux, request satisfied: doubled on the way back.
    assert!(!socket_buffer_was_capped(2 * 1024 * 1024, 4 * 1024 * 1024));
    // macOS, request satisfied: reported unchanged.
    assert!(!socket_buffer_was_capped(2 * 1024 * 1024, 2 * 1024 * 1024));
    // Linux, clamped at a stock `net.core.rmem_max` of 212992.
    assert!(socket_buffer_was_capped(2 * 1024 * 1024, 425_984));
    // The socket left on an untouched default while a size was asked for.
    assert!(socket_buffer_was_capped(2 * 1024 * 1024, 212_992));
}

/// A cap that has just been lowered is caught up with, not lived over.
///
/// One eviction per arrival is all a server sitting at a steady cap needs.
/// A `SIGHUP` that lowers `max_connections` below the number of connections
/// already live is the case that is not steady: `serve_forever` reads the cap
/// per accepted connection, so the newcomer is judged against the new value
/// while everybody already in was admitted under the old one, and without
/// the loop inside `evict_until_below` -- the accept path's own, called here
/// rather than copied -- the roster would sit above the new cap for as long
/// as those connections lasted.
///
/// Five live and a cap of two leaves room for the newcomer, so four go: the
/// loop stops at one, and the arrival that runs it makes two.
#[test]
fn a_lowered_cap_evicts_until_there_is_room() {
    let mut roster = Roster::new();
    let mut gates = Gates::new();
    let _parked = park(&mut roster, &mut gates, 5);

    assert_eq!(
        evicted(&mut roster, &gates, 2),
        vec![peer(0), peer(1), peer(2), peer(3)],
        "the victims must be the oldest four, oldest first"
    );
    assert_eq!(roster.len(), 1, "one slot is left for the newcomer");
}

/// The loop stops when there is nothing left it may take.
///
/// An authenticated connection is never a candidate, so a roster of them is
/// what makes the accept loop refuse rather than spin.
#[test]
fn eviction_stops_when_every_connection_has_authenticated() {
    let mut roster = Roster::new();
    let mut gates = Gates::new();

    let mut held = Vec::new();
    for n in 0..3 {
        let registration = roster.register(peer(n), authenticated_gate(&mut gates));
        held.push(registration);
    }

    assert!(
        evicted(&mut roster, &gates, 1).is_empty(),
        "an authenticated connection must never lose its slot"
    );
    assert_eq!(roster.len(), 3, "and must still be on the roster");
}

/// Why the accept loop asks whether there is a cap before applying one.
///
/// `max_connections = 0` means "no limit", and the guard in `serve_forever`
/// is the whole of that meaning. Handed to this arithmetic as a number, zero
/// is the harshest cap there could be -- every roster is at or above it -- so
/// each arrival would empty the roster and then be refused for finding it
/// still full. The configuration would mean the opposite of what it says.
#[test]
fn a_cap_of_zero_would_empty_the_roster_if_it_were_ever_applied() {
    let mut roster = Roster::new();
    let mut gates = Gates::new();
    let _parked = park(&mut roster, &mut gates, 3);

    assert_eq!(evicted(&mut roster, &gates, 0), vec![peer(0), peer(1), peer(2)]);
    assert_eq!(
        roster.len(),
        0,
        "and then there would be nobody left to refuse"
    );
}

/// A dropped registration gives the slot back, and takes nobody else's.
///
/// The guard is what makes the cap survive the several ways a connection
/// task can end, and sequence numbers are never reused, so a late drop can
/// only ever remove its own entry — including after an eviction has already
/// removed it.
#[test]
fn a_registration_gives_back_only_its_own_slot() {
    let mut roster = Roster::new();
    let mut gates = Gates::new();
    let mut parked = park(&mut roster, &mut gates, 3);

    // The middle one leaves of its own accord.
    let middle = parked.remove(1);
    roster.release(middle);
    assert_eq!(roster.len(), 2);

    // The oldest is evicted, and its guard is dropped afterwards: the entry
    // is already gone, and the drop must not reach the third connection's.
    assert_eq!(evict_one(&mut roster, &gates), Some(peer(0)));
    let evicted_guard = parked.remove(0);
    roster.release(evicted_guard);
    assert_eq!(roster.len(), 1);
    assert_eq!(
        evict_one(&mut roster, &gates),
        Some(peer(2)),
        "the survivor must be the one nobody gave up"
    );
}

#[test]
fn a_roomy_fd_budget_is_left_alone() {
    // The Ubuntu default, and the dev host, against a single connection.
    assert!(!fd_budget_is_tight(1024, 1, 256));
    assert!(!fd_budget_is_tight(1_048_576, 1, 256));
    // Exactly the headroom, and one better.
    assert!(!fd_budget_is_tight(FD_HEADROOM + 8, 1, 8));
    assert!(fd_budget_is_tight(FD_HEADROOM + 7, 1, 8));
    // The product is what the limit is compared against: eight connections
    // of eight tunnels need eight times as many descriptors as one does.
    assert!(!fd_budget_is_tight(FD_HEADROOM + 64, 8, 8));
    assert!(fd_budget_is_tight(FD_HEADROOM + 63, 8, 8));
    // The shipped defaults, with the headroom the docs ask an operator for.
    assert!(!fd_budget_is_tight(131_072, 256, 256));
}

/// The limits reach the transport, beside the bounds that are not configurable.
#[test]
fn configured_limits_reach_the_transport_config() {
    let parameters = transport_config(&limits(7)).expect("valid limits");
    assert_eq!(parameters.max_concurrent_bidi_streams, 7);
    assert_eq!(parameters.max_concurrent_uni_streams, MAX_PEER_UNI_STREAMS);
    assert_eq!(parameters.initial_mtu, 1350, "the initial MTU must apply");
    assert_eq!(
        parameters.mtu_upper_bound,
        Some(1464),
        "the discovery ceiling must apply"
    );
    assert_eq!(parameters.initial_rtt_ms, 150, "the initial RTT must apply");
    assert_eq!(parameters.max_idle_timeout_ms, 30_000);
    assert_eq!(parameters.keep_alive_interval_ms, Some(10_000));
    assert_eq!(parameters.congestion_control, CongestionControl::Bbr);

    let mut quiet = limits(7);
    quiet.keep_alive_interval_ms = 0;
    quiet.mtu_discovery = false;
    let parameters = transport_config(&quiet).expect("valid limits");
    assert_eq!(parameters.keep_alive_interval_ms, None);
    assert_eq!(parameters.mtu_upper_bound, None);
}

/// The bound that stops one unauthenticated connection from exhausting the host's
/// memory.
#[test]
fn the_connection_receive_window_is_bounded() {
    let parameters = transport_config(&limits(1024)).expect("valid limits");
    assert_eq!(
        parameters.receive_window, 16777216,
        "the aggregate receive window must be capped at 16 MiB"
    );
    assert_ne!(
        parameters.receive_window,
        quinn::VarInt::MAX.into_inner(),
        "the unbounded quinn default must not survive"
    );
}

/// Both windows really reach the transport parameters.
#[test]
fn the_stream_and_send_windows_are_set() {
    let parameters = transport_config(&limits(1024)).expect("valid limits");
    assert_eq!(parameters.stream_receive_window, 2097152);
    assert_eq!(parameters.send_window, 10000000);
}

/// The two buffers a peer that has authenticated nothing can fill are stated.
#[test]
fn the_datagram_and_crypto_buffers_are_stated_rather_than_inherited() {
    let parameters = transport_config(&limits(1024)).expect("valid limits");
    assert_eq!(
        parameters.datagram_receive_buffer_size,
        DATAGRAM_RECEIVE_BUFFER
    );
    assert_eq!(DATAGRAM_RECEIVE_BUFFER, 1_250_000);
    assert_eq!(parameters.crypto_buffer_size, CRYPTO_BUFFER_SIZE);
    assert_eq!(CRYPTO_BUFFER_SIZE, 16 * 1024);
}

/// What the handshake advertises is the clamp, not what is configured.
#[test]
fn the_handshake_advertises_the_initial_stream_allowance() {
    assert!(DEFAULT_MAX_STREAMS_BIDI > INITIAL_BIDI_STREAMS);
    let parameters = transport_config(&limits(DEFAULT_MAX_STREAMS_BIDI)).expect("valid limits");
    assert_eq!(parameters.max_concurrent_bidi_streams, INITIAL_BIDI_STREAMS);
}

/// quinn's own defaults still are what the pinned values were chosen against.
#[test]
fn quinn_has_not_moved_the_defaults_we_quote() {
    let rendered = format!("{:?}", quinn::TransportConfig::default());
    assert!(
        rendered.contains(&format!("send_window: {SEND_WINDOW}")),
        "{rendered}"
    );
    assert!(
        rendered.contains("stream_receive_window: 1250000"),
        "{rendered}"
    );
    assert!(
        rendered.contains(&format!(
            "datagram_receive_buffer_size: Some({DATAGRAM_RECEIVE_BUFFER})"
        )),
        "{rendered}"
    );
    assert!(
        rendered.contains(&format!("crypto_buffer_size: {CRYPTO_BUFFER_SIZE}")),
        "{rendered}"
    );
}

/// An idle timeout past what QUIC can carry is refused, and the longest that it
/// can is not.
#[test]
fn an_idle_timeout_has_to_fit_quic() {
    let mut long = limits(16);
    long.max_idle_timeout_ms = (1 << 62) - 1;
    assert!(transport_config(&long).is_ok());
    long.max_idle_timeout_ms = 1 << 62;
    assert_eq!(
        transport_config(&long).unwrap_err(),
        "limits.max_idle_timeout is out of range for QUIC"
    );
}

/// A gate opens once, and whoever opens it is told, through whichever copy.
#[test]
fn a_gate_is_opened_once() {
    let mut gates = Gates::default();
    let gate = AuthGate::closed(&mut gates);
    let copies = vec![gate; 5];
    let other = AuthGate::closed(&mut gates);
    assert!(!gate.is_open(&gates));
    assert!(copies.iter().all(|copy| !copy.is_open(&gates)));

    assert!(copies[3].mark(&mut gates), "the first is told");
    assert!(gate.is_open(&gates), "and every copy sees it");
    assert!(copies.iter().all(|copy| copy.is_open(&gates)));
    assert!(!gate.mark(&mut gates));
    assert_eq!(copies.iter().filter(|copy| copy.mark(&mut gates)).count(), 0);

    assert!(!other.is_open(&gates), "no other gate is touched");
    let later = AuthGate::closed(&mut gates);
    assert!(gate.is_open(&gates));
    assert!(later.mark(&mut gates));
    assert!(other.mark(&mut gates));
}

/// Of copies of a gate that are marked at the same moment from different threads,
/// exactly one is told that it is the first.
#[test]
fn exactly_one_of_many_at_once_is_told_that_it_is_the_first() {
    let runtime = tokio::runtime::Builder::new_multi_thread()
        .worker_threads(4)
        .build()
        .expect("a runtime");
    let gates = std::sync::Arc::new(std::sync::Mutex::new(Gates::new()));
    for _ in 0..64 {
        let gate = AuthGate::closed(&mut gates.lock().expect("the gates"));
        let marking: Vec<_> = (0..16)
            .map(|_| {
                let gates = gates.clone();
                runtime.spawn_blocking(move || gate.mark(&mut gates.lock().expect("the gates")))
            })
            .collect();
        let told = marking
            .into_iter()
            .filter_map(|task| runtime.block_on(task).ok())
            .filter(|first| *first)
            .count();
        assert_eq!(told, 1);
        assert!(gate.is_open(&gates.lock().expect("the gates")));
    }
}

/// A connection that authenticates is safe from then on, whichever copy of its
/// gate is marked.
#[test]
fn an_authenticated_connection_keeps_its_slot() {
    let mut roster = Roster::new();
    let mut gates = Gates::new();
    let gate = AuthGate::closed(&mut gates);
    let kept = roster.register(peer(9), gate);
    let parked = park(&mut roster, &mut gates, 2);

    assert!(gate.mark(&mut gates));
    assert_eq!(evicted(&mut roster, &gates, 2), vec![peer(0), peer(1)]);
    assert_eq!(roster.len(), 1);
    assert_eq!(kept.sequence(), 0);
    assert_eq!(parked[1].sequence(), 2);

    // One that has lost its slot still has a gate.
    let late = AuthGate::closed(&mut gates);
    roster.register(peer(7), late);
    assert_eq!(evicted(&mut roster, &gates, 2), vec![peer(7)]);
    assert!(late.mark(&mut gates));
    assert!(!late.mark(&mut gates));
    assert_eq!(roster.len(), 1, "which gives no slot back");
}

/// Who is let in, and at whose cost.
#[test]
fn a_full_server_makes_room_for_a_proven_address() {
    // Room, or no cap at all.
    let mut roster = Roster::new();
    let mut gates = Gates::new();
    let _parked = park(&mut roster, &mut gates, 2);
    assert!(matches!(roster.admission(3, false, true, &gates), (Verdict::Serve, victims) if victims.is_empty()));
    assert!(matches!(roster.admission(0, false, false, &gates), (Verdict::Serve, victims) if victims.is_empty()));
    // Full: an address that has proved nothing takes nobody's slot.
    assert!(matches!(roster.admission(2, false, true, &gates), (Verdict::Retry, victims) if victims.is_empty()));
    assert!(matches!(roster.admission(2, false, false, &gates), (Verdict::Refuse, victims) if victims.is_empty()));
    assert_eq!(roster.len(), 2);
    // One that has takes the oldest stranger's.
    let (verdict, victims) = roster.admission(2, true, false, &gates);
    assert_eq!(verdict, Verdict::Serve);
    assert_eq!(victims.len(), 1);
    assert_eq!(victims[0].remote, peer(0));
    assert_eq!(roster.len(), 1);
    // Nobody to take a slot from.
    let mut roster = Roster::new();
    let mut gates = Gates::new();
    roster.register(peer(0), authenticated_gate(&mut gates));
    let (verdict, victims) = roster.admission(1, true, false, &gates);
    assert_eq!(verdict, Verdict::Refuse);
    assert!(victims.is_empty());
}

/// How each ending of a connection is told.
#[test]
fn a_closing_line_gives_the_reason() {
    assert_eq!(closing(Ended::Evicted).unwrap(), "evicted");
    assert_eq!(closing(Ended::Handled(Ok(()))).unwrap(), "drained");
    assert_eq!(
        closing(Ended::Handled(Err(ConnectionError::Timeout))).unwrap(),
        "idle"
    );
    assert_eq!(
        closing(Ended::Handled(Err(ConnectionError::ApplicationClose {
            code: Code::new(0)
        })))
        .unwrap(),
        "peer_close"
    );
    assert!(matches!(
        closing(Ended::Handled(Err(ConnectionError::ApplicationClose {
            code: Code::H3_ID_ERROR
        }))),
        Err(ConnectionError::ApplicationClose {
            code: Code::H3_ID_ERROR
        })
    ));
}

/// A reload applies everything or nothing, and never opens a listener again.
#[test]
fn a_reload_is_applied_whole_or_not_at_all() {
    let mut live = Live::new(1);
    assert_eq!(live.accept_under_the_swap(), Some(1));
    live.reload(2).expect("a running server reloads");
    assert_eq!(live.accept_under_the_swap(), Some(2));
    live.fire();
    assert_eq!(
        live.reload(3).unwrap_err(),
        "the server is shutting down; the configuration was not reloaded"
    );
    assert_eq!(live.accept_under_the_swap(), Some(2), "a refused reload changes nothing");
    live.drain();
    assert_eq!(live.accept_under_the_swap(), None);
    assert!(live.reload(4).is_err());
    assert_eq!(live.accept_under_the_swap(), None, "the listener stays closed");
}

/// What is known about a peer is what its handshake revealed.
#[test]
fn a_peer_is_known_by_its_handshake() {
    let info = peer_info(peer(9), None);
    assert_eq!(info.remote, peer(9));
    assert_eq!(info.alpn, None);
    assert_eq!(info.server_name, None);
    let info = peer_info(
        peer(9),
        Some(Handshake {
            protocol: Some(b"h3\xff".to_vec()),
            server_name: Some("localhost".to_owned()),
        }),
    );
    assert_eq!(info.alpn.as_deref(), Some("h3\u{fffd}"));
    assert_eq!(info.server_name.as_deref(), Some("localhost"));
}

/// The descriptors to warn about are the ones there is no room for.
#[test]
fn a_tight_descriptor_budget_is_warned_about() {
    let limits = limits(16);
    assert_eq!(warn_if_fd_budget_is_tight(&limits, None), None);
    assert_eq!(warn_if_fd_budget_is_tight(&limits, Some(1_000_000)), None);
    assert_eq!(
        warn_if_fd_budget_is_tight(&limits, Some(1024)),
        Some(256 * 256 + 64)
    );
    assert_eq!(
        fd_budget(u32::MAX, u32::MAX),
        u64::from(u32::MAX) * u64::from(u32::MAX) + 64
    );
}

/// What is said about a buffer the kernel would not give.
#[test]
fn a_buffer_that_falls_short_is_warned_about() {
    assert_eq!(SocketBuffer::Recv.key(), "limits.socket_recv_buffer");
    assert_eq!(SocketBuffer::Send.ceiling_sysctl(), "net.core.wmem_max");

    let report = request_socket_buffer(SocketBuffer::Recv, 0, false, Some(1));
    assert_eq!(report.granted, Some(1));
    assert_eq!(report.warning, None, "nothing was asked for");
    let report = request_socket_buffer(SocketBuffer::Recv, 10, false, Some(20));
    assert_eq!(report.warning, None, "more than enough");
    let report = request_socket_buffer(SocketBuffer::Recv, 10, false, None);
    assert_eq!((report.granted, report.warning), (None, None));
    let report = request_socket_buffer(SocketBuffer::Recv, 10, false, Some(9));
    assert_eq!(
        report.warning.as_deref(),
        Some(
            "the kernel granted less UDP socket buffer than limits.socket_recv_buffer asks for: \
             a burst that outruns this socket is dropped there, silently, and has to be sent \
             again. Raise this host's ceiling (sysctl -w net.core.rmem_max=<bytes> on Linux, \
             kern.ipc.maxsockbuf on macOS) or lower limits.socket_recv_buffer so it stops asking \
             for more than the host allows."
        )
    );
    let report = request_socket_buffer(SocketBuffer::Send, 10, true, Some(9));
    assert_eq!(
        report.warning.as_deref(),
        Some(
            "the kernel refused the UDP socket buffer limits.socket_send_buffer asks for, so the \
             socket keeps the operating system default. Lower the value, or raise this host's \
             ceiling (net.core.wmem_max on Linux, kern.ipc.maxsockbuf on macOS)."
        )
    );
}
