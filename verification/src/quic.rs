//! The QUIC endpoint: transport parameters, who may hold a connection, and what
//! a reload may change.

use std::collections::HashSet;

use vstd::prelude::*;
use vstd::string::StringExecFns;

use crate::config::{CongestionControl, Limits};
use crate::datagram::VARINT_MAX;
use crate::h3::error::ConnectionError;
use crate::h3::quic_varint;
use crate::h3api::{BenignClose, benign_close, goodbye};
use crate::ip::SocketAddr;
use crate::logfmt::{lossy, lossy_text};

verus! {

/// What one connection may have received and not yet read, in bytes.
pub const CONNECTION_RECEIVE_WINDOW: u64 = 16777216;

/// What one stream may have received and not yet read, in bytes.
pub const STREAM_RECEIVE_WINDOW: u64 = 2097152;

/// What one connection may have sent and not yet had acknowledged, in bytes.
pub const SEND_WINDOW: u64 = 10_000_000;

/// What one connection's inbound datagrams may take before they are read.
pub const DATAGRAM_RECEIVE_BUFFER: usize = 1_250_000;

/// What one connection's handshake may take out of order.
pub const CRYPTO_BUFFER_SIZE: usize = 16384;

/// Descriptors needed beyond the tunnels'.
pub const FD_HEADROOM: u64 = 64;

/// Unidirectional streams a peer may have open at a time.
pub const MAX_PEER_UNI_STREAMS: u32 = 16;

/// Request streams a peer may have open before it has authenticated.
pub const INITIAL_BIDI_STREAMS: u32 = 16;

/// How long a closing endpoint waits for its last packets to leave, in
/// milliseconds.
pub const CLOSE_FLUSH_TIMEOUT_MS: u64 = 1000;

// ---------------------------------------------------------------------------
// Transport parameters
// ---------------------------------------------------------------------------

/// The request streams a connection is accepted with: never more than are
/// configured.
pub fn initial_bidi_streams(limits: &Limits) -> (streams: u32)
    ensures
        streams == if limits.max_streams_bidi <= INITIAL_BIDI_STREAMS {
            limits.max_streams_bidi
        } else {
            INITIAL_BIDI_STREAMS
        },
{
    if limits.max_streams_bidi <= INITIAL_BIDI_STREAMS {
        limits.max_streams_bidi
    } else {
        INITIAL_BIDI_STREAMS
    }
}

/// The parameters of the QUIC transport.
#[derive(Debug, Clone, Copy, PartialEq, Eq, Structural)]
pub struct TransportParameters {
    /// Request streams the peer may have open.
    pub max_concurrent_bidi_streams: u32,
    /// Unidirectional streams the peer may have open.
    pub max_concurrent_uni_streams: u32,
    /// The window of a connection.
    pub receive_window: u64,
    /// The window of a stream.
    pub stream_receive_window: u64,
    /// The window of what is sent.
    pub send_window: u64,
    /// The buffer for inbound datagrams.
    pub datagram_receive_buffer_size: usize,
    /// The buffer for handshake data out of order.
    pub crypto_buffer_size: usize,
    /// The idle timeout, in milliseconds.
    pub max_idle_timeout_ms: u64,
    /// The keep-alive interval, in milliseconds.
    pub keep_alive_interval_ms: Option<u64>,
    /// The round-trip time assumed before there is a sample, in milliseconds.
    pub initial_rtt_ms: u64,
    /// The packet size to start with.
    pub initial_mtu: u16,
    /// The largest packet to probe for, if any is.
    pub mtu_upper_bound: Option<u16>,
    /// The congestion controller.
    pub congestion_control: CongestionControl,
}

/// The parameters that limits come to.
pub open spec fn parameters_for(limits: Limits) -> TransportParameters {
    TransportParameters {
        max_concurrent_bidi_streams: if limits.max_streams_bidi <= INITIAL_BIDI_STREAMS {
            limits.max_streams_bidi
        } else {
            INITIAL_BIDI_STREAMS
        },
        max_concurrent_uni_streams: MAX_PEER_UNI_STREAMS,
        receive_window: CONNECTION_RECEIVE_WINDOW,
        stream_receive_window: STREAM_RECEIVE_WINDOW,
        send_window: SEND_WINDOW,
        datagram_receive_buffer_size: DATAGRAM_RECEIVE_BUFFER,
        crypto_buffer_size: CRYPTO_BUFFER_SIZE,
        max_idle_timeout_ms: limits.max_idle_timeout_ms,
        keep_alive_interval_ms: if limits.keep_alive_interval_ms == 0 {
            None
        } else {
            Some(limits.keep_alive_interval_ms)
        },
        initial_rtt_ms: limits.initial_rtt_ms,
        initial_mtu: limits.initial_mtu,
        mtu_upper_bound: if limits.mtu_discovery {
            Some(limits.mtu_upper_bound)
        } else {
            None
        },
        congestion_control: limits.congestion_control,
    }
}

/// The QUIC transport parameters for these limits, and the bounds on what a peer
/// that has proved nothing can make this process hold.
///
/// An idle timeout that QUIC cannot carry is refused.
pub fn transport_config(limits: &Limits) -> (result: Result<TransportParameters, &'static str>)
    ensures
        result matches Ok(parameters) ==> parameters == parameters_for(*limits),
        match result {
            Ok(parameters) => limits.max_idle_timeout_ms <= VARINT_MAX && parameters == (
            TransportParameters {
                max_concurrent_bidi_streams: if limits.max_streams_bidi <= INITIAL_BIDI_STREAMS {
                    limits.max_streams_bidi
                } else {
                    INITIAL_BIDI_STREAMS
                },
                max_concurrent_uni_streams: MAX_PEER_UNI_STREAMS,
                receive_window: CONNECTION_RECEIVE_WINDOW,
                stream_receive_window: STREAM_RECEIVE_WINDOW,
                send_window: SEND_WINDOW,
                datagram_receive_buffer_size: DATAGRAM_RECEIVE_BUFFER,
                crypto_buffer_size: CRYPTO_BUFFER_SIZE,
                max_idle_timeout_ms: limits.max_idle_timeout_ms,
                keep_alive_interval_ms: if limits.keep_alive_interval_ms == 0 {
                    None
                } else {
                    Some(limits.keep_alive_interval_ms)
                },
                initial_rtt_ms: limits.initial_rtt_ms,
                initial_mtu: limits.initial_mtu,
                mtu_upper_bound: if limits.mtu_discovery {
                    Some(limits.mtu_upper_bound)
                } else {
                    None
                },
                congestion_control: limits.congestion_control,
            }),
            Err(text) => limits.max_idle_timeout_ms > VARINT_MAX && text@
                == "limits.max_idle_timeout is out of range for QUIC"@,
        },
{
    let max_idle_timeout_ms: u64 = match quic_varint(limits.max_idle_timeout_ms) {
        Some(timeout) => timeout,
        None => {
            return Err("limits.max_idle_timeout is out of range for QUIC");
        },
    };
    let keep_alive_interval_ms: Option<u64> = if limits.keep_alive_interval_ms == 0 {
        None
    } else {
        Some(limits.keep_alive_interval_ms)
    };
    let mtu_upper_bound: Option<u16> = if limits.mtu_discovery {
        Some(limits.mtu_upper_bound)
    } else {
        None
    };
    Ok(
        TransportParameters {
            max_concurrent_bidi_streams: initial_bidi_streams(limits),
            max_concurrent_uni_streams: MAX_PEER_UNI_STREAMS,
            receive_window: CONNECTION_RECEIVE_WINDOW,
            stream_receive_window: STREAM_RECEIVE_WINDOW,
            send_window: SEND_WINDOW,
            datagram_receive_buffer_size: DATAGRAM_RECEIVE_BUFFER,
            crypto_buffer_size: CRYPTO_BUFFER_SIZE,
            max_idle_timeout_ms,
            keep_alive_interval_ms,
            initial_rtt_ms: limits.initial_rtt_ms,
            initial_mtu: limits.initial_mtu,
            mtu_upper_bound,
            congestion_control: limits.congestion_control,
        },
    )
}

// ---------------------------------------------------------------------------
// Peers
// ---------------------------------------------------------------------------

/// What a TLS handshake revealed about a peer.
#[derive(Debug, Clone)]
pub struct Handshake {
    /// The negotiated protocol.
    pub protocol: Option<Vec<u8>>,
    /// The host name the peer asked for.
    pub server_name: Option<String>,
}

/// What is known about a peer, for logging.
#[derive(Debug, Clone)]
pub struct PeerInfo {
    /// The peer's address.
    pub remote: SocketAddr,
    /// The negotiated protocol, leniently decoded.
    pub alpn: Option<String>,
    /// The host name the peer asked for.
    pub server_name: Option<String>,
}

/// Puts together what is known about a peer.
pub fn peer_info(remote: SocketAddr, handshake: Option<Handshake>) -> (info: PeerInfo)
    ensures
        info.remote == remote,
        match handshake {
            Some(data) => info.server_name == data.server_name && match (data.protocol, info.alpn) {
                (Some(protocol), Some(alpn)) => alpn@ == lossy_text(protocol@),
                (None, None) => true,
                _ => false,
            },
            None => info.alpn is None && info.server_name is None,
        },
{
    match handshake {
        Some(data) => {
            let alpn: Option<String> = match &data.protocol {
                Some(protocol) => Some(lossy(protocol.as_slice())),
                None => None,
            };
            PeerInfo { remote, alpn, server_name: data.server_name }
        },
        None => PeerInfo { remote, alpn: None, server_name: None },
    }
}

/// Whether a connection has got past the door.
///
/// It opens once, and only the request that opens it learns that it was the
/// first: what follows from that happens once, however many requests pass. This
/// is a handle: every copy of it is the same gate, whose state is in [`Gates`],
/// and there is no way to open it without being told whether it was open.
#[derive(Debug, Clone, Copy)]
pub struct AuthGate {
    id: u64,
}

/// Which gates nothing has passed yet.
///
/// Only those are kept, so a gate that is open takes no room.
#[derive(Debug)]
pub struct Gates {
    closed: HashSet<u64>,
    next: u64,
}

/// Which gates nothing has passed yet.
pub struct GatesView {
    /// The gates that are closed.
    pub closed: Set<u64>,
    /// Which gate is made next.
    pub next: u64,
}

impl View for Gates {
    type V = GatesView;

    closed spec fn view(&self) -> GatesView {
        GatesView { closed: self.closed@, next: self.next }
    }
}

impl GatesView {
    /// Whether anything has passed a gate.
    pub open spec fn open(self, gate: AuthGate) -> bool {
        !self.closed.contains(gate.number())
    }

    /// With one more gate, which is closed.
    pub open spec fn making(self) -> GatesView {
        GatesView { closed: self.closed.insert(self.next), next: (self.next + 1) as u64 }
    }

    /// Once something has passed a gate.
    pub open spec fn marking(self, gate: AuthGate) -> GatesView {
        GatesView { closed: self.closed.remove(gate.number()), ..self }
    }
}

impl Default for Gates {
    fn default() -> (gates: Gates)
        ensures
            gates@ == (GatesView { closed: Set::empty(), next: 0 }),
    {
        Gates::new()
    }
}

impl Gates {
    /// No gates yet.
    pub fn new() -> (gates: Gates)
        ensures
            gates@ == (GatesView { closed: Set::empty(), next: 0 }),
    {
        broadcast use vstd::std_specs::hash::group_hash_axioms;

        Gates { closed: HashSet::new(), next: 0 }
    }
}

impl AuthGate {
    /// Which gate this is a handle of.
    pub closed spec fn number(self) -> u64 {
        self.id
    }

    /// A gate nothing has passed yet.
    pub fn closed(gates: &mut Gates) -> (gate: AuthGate)
        requires
            old(gates)@.next < u64::MAX,
        ensures
            gate.number() == old(gates)@.next,
            final(gates)@ == old(gates)@.making(),
            !final(gates)@.open(gate),
    {
        broadcast use vstd::std_specs::hash::group_hash_axioms;

        let id: u64 = gates.next;
        gates.next = id + 1;
        gates.closed.insert(id);
        AuthGate { id }
    }

    /// Records that a request got past the door; whether it was the first.
    pub fn mark(&self, gates: &mut Gates) -> (first: bool)
        ensures
            first == !old(gates)@.open(*self),
            final(gates)@ == old(gates)@.marking(*self),
            final(gates)@.open(*self),
    {
        broadcast use vstd::std_specs::hash::group_hash_axioms;

        gates.closed.remove(&self.id)
    }

    /// Whether anything has passed.
    pub fn is_open(&self, gates: &Gates) -> (open: bool)
        ensures
            open == gates@.open(*self),
    {
        broadcast use vstd::std_specs::hash::group_hash_axioms;

        !gates.closed.contains(&self.id)
    }
}

/// What happens to gates.
pub enum GateEvent {
    /// One is made.
    Made,
    /// One is marked, through any copy of its handle.
    Marked(AuthGate),
}

/// The gates once the first `count` of these events have happened.
pub open spec fn gates_after(gates: GatesView, events: Seq<GateEvent>, count: nat) -> GatesView
    decreases count,
{
    if count == 0 {
        gates
    } else {
        let before = gates_after(gates, events, (count - 1) as nat);
        match events[count - 1] {
            GateEvent::Made => before.making(),
            GateEvent::Marked(gate) => before.marking(gate),
        }
    }
}

/// Whether the `i`th of these events marks a gate, through any copy of its handle.
pub open spec fn marked_at(events: Seq<GateEvent>, i: int, gate: AuthGate) -> bool {
    events[i] matches GateEvent::Marked(copy) && copy.number() == gate.number()
}

/// Whether the `i`th of these events marks a gate and is told that it is the first
/// to.
pub open spec fn told_first(
    gates: GatesView,
    events: Seq<GateEvent>,
    i: int,
    gate: AuthGate,
) -> bool {
    marked_at(events, i, gate) && !gates_after(gates, events, i as nat).open(gate)
}

/// A gate is closed until the first mark through any copy of its handle, and open
/// ever after, whatever happens to other gates in between.
pub proof fn a_gate_opens_at_its_first_mark(
    gates: GatesView,
    events: Seq<GateEvent>,
    gate: AuthGate,
    count: nat,
)
    requires
        gate.number() < gates.next,
        gates.next + events.len() <= u64::MAX,
        count <= events.len(),
    ensures
        gates_after(gates, events, count).open(gate) <==> gates.open(gate) || exists|k: int|
            0 <= k < count && #[trigger] marked_at(events, k, gate),
        gates.next <= gates_after(gates, events, count).next <= gates.next + count,
    decreases count,
{
    if count > 0 {
        let last = (count - 1) as nat;
        a_gate_opens_at_its_first_mark(gates, events, gate, last);
        if marked_at(events, last as int, gate) {
            assert(gates_after(gates, events, count).open(gate));
        }
    }
}

/// However the calls of all who hold a copy of a gate follow one another, exactly
/// one of them is told that it is the first, and it is the first.
pub proof fn exactly_the_first_mark_is_told(
    gates: GatesView,
    events: Seq<GateEvent>,
    gate: AuthGate,
    i: int,
)
    requires
        gate.number() < gates.next,
        gates.next + events.len() <= u64::MAX,
        !gates.open(gate),
        0 <= i < events.len(),
    ensures
        told_first(gates, events, i, gate) <==> marked_at(events, i, gate) && forall|k: int|
            0 <= k < i ==> !#[trigger] marked_at(events, k, gate),
        marked_at(events, i, gate) ==> exists|k: int|
            0 <= k <= i && #[trigger] told_first(gates, events, k, gate),
        told_first(gates, events, i, gate) ==> forall|k: int|
            0 <= k < events.len() && #[trigger] told_first(gates, events, k, gate) ==> k == i,
    decreases i,
{
    a_gate_opens_at_its_first_mark(gates, events, gate, i as nat);
    if marked_at(events, i, gate) && !told_first(gates, events, i, gate) {
        let k = choose|k: int| 0 <= k < i && #[trigger] marked_at(events, k, gate);
        exactly_the_first_mark_is_told(gates, events, gate, k);
    }
    if told_first(gates, events, i, gate) {
        assert forall|k: int|
            0 <= k < events.len() && #[trigger] told_first(gates, events, k, gate) implies k
            == i by {
            a_gate_opens_at_its_first_mark(gates, events, gate, k as nat);
            assert(marked_at(events, i, gate) && marked_at(events, k, gate));
        }
    }
}

/// A gate that was open before tells nobody that they are the first.
pub proof fn an_open_gate_tells_nobody(
    gates: GatesView,
    events: Seq<GateEvent>,
    gate: AuthGate,
    i: int,
)
    requires
        gate.number() < gates.next,
        gates.next + events.len() <= u64::MAX,
        gates.open(gate),
        0 <= i < events.len(),
    ensures
        !told_first(gates, events, i, gate),
{
    a_gate_opens_at_its_first_mark(gates, events, gate, i as nat);
}

// ---------------------------------------------------------------------------
// The roster
// ---------------------------------------------------------------------------

/// One connection this endpoint is serving.
#[derive(Debug, Clone, Copy)]
pub struct Slot {
    /// Its place in the order of arrival.
    pub sequence: u64,
    /// The peer's address.
    pub remote: SocketAddr,
    /// Whether a request on it has passed the credentials check.
    pub authenticated: AuthGate,
}

impl Slot {
    /// Whether a request on it has passed the credentials check.
    pub open spec fn known(self, gates: GatesView) -> bool {
        gates.open(self.authenticated)
    }
}

/// A connection's place on the [`Roster`].
#[derive(Debug)]
pub struct Registration {
    sequence: u64,
}

impl Registration {
    /// The place in the order of arrival.
    pub closed spec fn place(self) -> u64 {
        self.sequence
    }

    /// The place in the order of arrival.
    pub fn sequence(&self) -> (sequence: u64)
        ensures
            sequence == self.place(),
    {
        self.sequence
    }
}

/// The connections this endpoint is serving, oldest first.
///
/// At the cap the newcomer is not the only candidate for refusal: the oldest
/// connection that has never authenticated loses its slot first, and only a
/// server whose every connection has authenticated refuses. A connection that
/// has is never a candidate.
#[derive(Debug)]
pub struct Roster {
    slots: Vec<Slot>,
    next: u64,
}

/// The first of these connections that has never authenticated.
pub open spec fn oldest_stranger(slots: Seq<Slot>, gates: GatesView) -> Option<int>
    decreases slots.len(),
{
    if slots.len() == 0 {
        None
    } else {
        match oldest_stranger(slots.drop_last(), gates) {
            Some(i) => Some(i),
            None => if slots.last().known(gates) {
                None
            } else {
                Some(slots.len() - 1)
            },
        }
    }
}

/// The connections that remain, and those that lose their slots in the order
/// they do, where there have to be fewer than `cap`.
pub open spec fn evicting(slots: Seq<Slot>, cap: nat, gates: GatesView) -> (Seq<Slot>, Seq<Slot>)
    decreases slots.len(),
{
    if slots.len() < cap {
        (slots, Seq::empty())
    } else {
        match oldest_stranger(slots, gates) {
            Some(i) => if 0 <= i < slots.len() {
                let (left, gone) = evicting(slots.remove(i), cap, gates);
                (left, seq![slots[i]] + gone)
            } else {
                (slots, Seq::empty())
            },
            None => (slots, Seq::empty()),
        }
    }
}

/// The connections without the one at a place in the order of arrival.
pub open spec fn without(slots: Seq<Slot>, sequence: u64) -> Seq<Slot> {
    slots.filter(|slot: Slot| slot.sequence != sequence)
}

/// What becomes of a connection that arrives.
#[derive(Debug, Clone, Copy, PartialEq, Eq, Structural)]
pub enum Verdict {
    /// It is served.
    Serve,
    /// It is asked to prove its address and come back.
    Retry,
    /// It is refused.
    Refuse,
}

/// What becomes of a connection that arrives, the connections that are left, and
/// those whose slots are taken for it.
pub open spec fn admitting(
    slots: Seq<Slot>,
    max_connections: nat,
    validated: bool,
    may_retry: bool,
    gates: GatesView,
) -> (Verdict, Seq<Slot>, Seq<Slot>) {
    if max_connections == 0 || slots.len() < max_connections {
        (Verdict::Serve, slots, Seq::empty())
    } else if !validated {
        (
            if may_retry {
                Verdict::Retry
            } else {
                Verdict::Refuse
            },
            slots,
            Seq::empty(),
        )
    } else {
        let (left, gone) = evicting(slots, max_connections, gates);
        (
            if left.len() < max_connections {
                Verdict::Serve
            } else {
                Verdict::Refuse
            },
            left,
            gone,
        )
    }
}

impl Roster {
    /// The connections, oldest first.
    pub closed spec fn slots(self) -> Seq<Slot> {
        self.slots@
    }

    /// The place in the order of arrival that the next connection takes.
    pub closed spec fn next(self) -> u64 {
        self.next
    }

    /// The connections stand in the order they arrived in, and no place is ever
    /// taken twice.
    pub open spec fn well_formed(self) -> bool {
        &&& forall|i: int, j: int|
            0 <= i < j < self.slots().len() ==> (#[trigger] self.slots()[i]).sequence < (
            #[trigger] self.slots()[j]).sequence
        &&& forall|i: int|
            0 <= i < self.slots().len() ==> (#[trigger] self.slots()[i]).sequence < self.next()
    }

    /// A roster without connections.
    pub fn new() -> (roster: Roster)
        ensures
            roster.well_formed(),
            roster.slots() == Seq::<Slot>::empty(),
            roster.next() == 0,
    {
        Roster { slots: Vec::new(), next: 0 }
    }

    /// How many connections hold a slot.
    pub fn len(&self) -> (len: usize)
        ensures
            len == self.slots().len(),
    {
        self.slots.len()
    }

    /// Enters a connection about to be served.
    pub fn register(&mut self, remote: SocketAddr, authenticated: AuthGate) -> (registration:
        Registration)
        requires
            old(self).well_formed(),
            old(self).next() < u64::MAX,
        ensures
            final(self).well_formed(),
            registration.place() == old(self).next(),
            final(self).slots() == old(self).slots().push(
                Slot { sequence: old(self).next(), remote, authenticated },
            ),
            final(self).next() == old(self).next() + 1,
    {
        let sequence: u64 = self.next;
        self.next = self.next + 1;
        self.slots.push(Slot { sequence, remote, authenticated });
        Registration { sequence }
    }

    /// Gives up a connection's slot. One that was evicted has none to give up,
    /// and no other is touched.
    pub fn release(&mut self, registration: Registration)
        requires
            old(self).well_formed(),
        ensures
            final(self).well_formed(),
            final(self).next() == old(self).next(),
            final(self).slots() == without(old(self).slots(), registration.place()),
    {
        let ghost before = self.slots@;
        let ghost keep = |slot: Slot| slot.sequence != registration.sequence;
        let mut kept: Vec<Slot> = Vec::new();
        let mut at: usize = 0;
        proof {
            reveal(Seq::filter);
            assert(before.subrange(0, 0) =~= Seq::<Slot>::empty());
        }
        while at < self.slots.len()
            invariant
                at <= self.slots.len(),
                self.slots@ == before,
                self.next == old(self).next(),
                before == old(self).slots(),
                old(self).well_formed(),
                keep == (|slot: Slot| slot.sequence != registration.sequence),
                kept@ == before.subrange(0, at as int).filter(keep),
                forall|i: int, j: int|
                    0 <= i < j < kept@.len() ==> (#[trigger] kept@[i]).sequence < (
                    #[trigger] kept@[j]).sequence,
                forall|i: int|
                    0 <= i < kept@.len() ==> (#[trigger] kept@[i]).sequence < old(self).next() && (
                    at < before.len() ==> kept@[i].sequence < before[at as int].sequence),
            decreases self.slots.len() - at,
        {
            let slot: Slot = self.slots[at];
            proof {
                reveal(Seq::filter);
                let longer = before.subrange(0, at as int + 1);
                assert(longer.drop_last() =~= before.subrange(0, at as int));
                assert(longer.last() == slot);
                assert(old(self).slots()[at as int].sequence < old(self).next());
                if at + 1 < before.len() {
                    assert(old(self).slots()[at as int].sequence < old(self).slots()[at
                        + 1].sequence);
                }
            }
            if slot.sequence != registration.sequence {
                kept.push(slot);
            }
            at = at + 1;
        }
        assert(before.subrange(0, at as int) =~= before);
        self.slots = kept;
    }

    /// Takes the oldest connection that has never authenticated off the roster.
    fn evict_oldest(&mut self, gates: &Gates) -> (victim: Option<Slot>)
        requires
            old(self).well_formed(),
        ensures
            final(self).well_formed(),
            final(self).next() == old(self).next(),
            match victim {
                Some(victim) => oldest_stranger(old(self).slots(), gates@) matches Some(i)
                    && 0 <= i < old(self).slots().len() && victim == old(self).slots()[i]
                    && final(self).slots() == old(self).slots().remove(i),
                None => oldest_stranger(old(self).slots(), gates@) is None && final(self).slots()
                    == old(self).slots(),
            },
    {
        let mut at: usize = 0;
        let ghost before = self.slots@;
        assert(before.subrange(0, 0) =~= Seq::<Slot>::empty());
        while at < self.slots.len()
            invariant
                at <= self.slots.len(),
                self.slots@ == before,
                self.next == old(self).next(),
                before == old(self).slots(),
                old(self).well_formed(),
                oldest_stranger(before.subrange(0, at as int), gates@) is None,
            decreases self.slots.len() - at,
        {
            proof {
                let longer = before.subrange(0, at as int + 1);
                assert(longer.drop_last() =~= before.subrange(0, at as int));
                assert(longer.last() == before[at as int]);
            }
            if !self.slots[at].authenticated.is_open(gates) {
                proof {
                    lemma_oldest_stranger(before, at as int + 1, gates@);
                    let left = before.remove(at as int);
                    assert forall|i: int, j: int| 0 <= i < j < left.len() implies (
                    #[trigger] left[i]).sequence < (#[trigger] left[j]).sequence by {
                        let from_i = if i < at {
                            i
                        } else {
                            i + 1
                        };
                        let from_j = if j < at {
                            j
                        } else {
                            j + 1
                        };
                        assert(before[from_i].sequence < before[from_j].sequence);
                    }
                    assert forall|i: int| 0 <= i < left.len() implies (#[trigger] left[i]).sequence
                        < old(self).next() by {
                        let from_i = if i < at {
                            i
                        } else {
                            i + 1
                        };
                        assert(old(self).slots()[from_i].sequence < old(self).next());
                    }
                }
                return Some(self.slots.remove(at));
            }
            at = at + 1;
        }
        assert(before.subrange(0, at as int) =~= before);
        None
    }

    /// Evicts until there are fewer than `cap` connections, or none left that may
    /// be; the victims, in the order they were taken.
    ///
    /// One victim is all a steady cap ever needs. A cap that has just been
    /// lowered needs more.
    pub fn evict_until_below(&mut self, cap: usize, gates: &Gates) -> (victims: Vec<Slot>)
        requires
            old(self).well_formed(),
        ensures
            final(self).well_formed(),
            final(self).next() == old(self).next(),
            (final(self).slots(), victims@) == evicting(old(self).slots(), cap as nat, gates@),
    {
        let mut victims: Vec<Slot> = Vec::new();
        proof {
            let (left, gone) = evicting(self.slots(), cap as nat, gates@);
            assert(victims@ + gone =~= gone);
        }
        while self.slots.len() >= cap
            invariant
                self.well_formed(),
                self.next() == old(self).next(),
                evicting(old(self).slots(), cap as nat, gates@) == (
                    evicting(self.slots(), cap as nat, gates@).0,
                    victims@ + evicting(self.slots(), cap as nat, gates@).1,
                ),
            decreases self.slots().len(),
        {
            let ghost before = self.slots();
            match self.evict_oldest(gates) {
                Some(victim) => {
                    let ghost taken = victims@;
                    victims.push(victim);
                    proof {
                        let i = oldest_stranger(before, gates@)->0;
                        let later = evicting(before.remove(i), cap as nat, gates@).1;
                        assert(taken + (seq![victim] + later) =~= victims@ + later);
                    }
                },
                None => {
                    proof {
                        assert(victims@ + Seq::<Slot>::empty() =~= victims@);
                    }
                    return victims;
                },
            }
        }
        assert(victims@ + Seq::<Slot>::empty() =~= victims@);
        victims
    }

    /// Decides whether an arriving connection may have a slot, and whose slots are
    /// taken for it.
    ///
    /// Taking somebody's slot is a privilege that an address which has proved
    /// nothing does not have: it is asked to prove itself first. No cap, which
    /// zero stands for, admits everyone.
    pub fn admission(
        &mut self,
        max_connections: u32,
        validated: bool,
        may_retry: bool,
        gates: &Gates,
    ) -> (decided: (Verdict, Vec<Slot>))
        requires
            old(self).well_formed(),
        ensures
            final(self).well_formed(),
            final(self).next() == old(self).next(),
            decided.0 is Serve ==> max_connections == 0 || final(self).slots().len()
                < max_connections,
            (decided.0, final(self).slots(), decided.1@) == admitting(
                old(self).slots(),
                max_connections as nat,
                validated,
                may_retry,
                gates@,
            ),
            ({
                let room = max_connections == 0 || old(self).slots().len() < max_connections;
                if room || !validated {
                    &&& final(self).slots() == old(self).slots()
                    &&& decided.1@ == Seq::<Slot>::empty()
                    &&& decided.0 == if room {
                        Verdict::Serve
                    } else if may_retry {
                        Verdict::Retry
                    } else {
                        Verdict::Refuse
                    }
                } else {
                    &&& (final(self).slots(), decided.1@) == evicting(
                        old(self).slots(),
                        max_connections as nat,
                        gates@,
                    )
                    &&& decided.0 == if final(self).slots().len() < max_connections {
                        Verdict::Serve
                    } else {
                        Verdict::Refuse
                    }
                }
            }),
    {
        if max_connections == 0 || (self.slots.len() as u64) < max_connections as u64 {
            return (Verdict::Serve, Vec::new());
        }
        if !validated {
            return if may_retry {
                (Verdict::Retry, Vec::new())
            } else {
                (Verdict::Refuse, Vec::new())
            };
        }
        let victims = self.evict_until_below(max_connections as usize, gates);
        if (self.slots.len() as u64) < max_connections as u64 {
            (Verdict::Serve, victims)
        } else {
            (Verdict::Refuse, victims)
        }
    }
}

/// The first stranger among the first connections is the first among all.
proof fn lemma_oldest_stranger(slots: Seq<Slot>, count: int, gates: GatesView)
    requires
        0 <= count <= slots.len(),
        oldest_stranger(slots.subrange(0, count), gates) is Some,
    ensures
        oldest_stranger(slots, gates) == oldest_stranger(slots.subrange(0, count), gates),
    decreases slots.len(),
{
    if count < slots.len() {
        assert(slots.drop_last().subrange(0, count) =~= slots.subrange(0, count));
        lemma_oldest_stranger(slots.drop_last(), count, gates);
    } else {
        assert(slots.subrange(0, count) =~= slots);
    }
}

proof fn lemma_stranger(slots: Seq<Slot>, gates: GatesView)
    ensures
        match oldest_stranger(slots, gates) {
            Some(i) => 0 <= i < slots.len() && !slots[i].known(gates) && forall|j: int|
                0 <= j < i ==> (#[trigger] slots[j]).known(gates),
            None => forall|j: int|
                0 <= j < slots.len() ==> (#[trigger] slots[j]).known(gates),
        },
    decreases slots.len(),
{
    if slots.len() > 0 {
        let shorter = slots.drop_last();
        lemma_stranger(shorter, gates);
        assert forall|j: int| 0 <= j < shorter.len() implies #[trigger] slots[j] == shorter[j] by {}
    }
}

/// Eviction takes only connections that have never authenticated, and stops once
/// there is room or nobody is left to take.
pub proof fn eviction_spares_the_authenticated(slots: Seq<Slot>, cap: nat, gates: GatesView)
    ensures
        ({
            let (left, gone) = evicting(slots, cap, gates);
            &&& forall|i: int| 0 <= i < gone.len() ==> !(#[trigger] gone[i]).known(gates)
            &&& left.len() + gone.len() == slots.len()
            &&& left.len() >= cap ==> forall|i: int|
                0 <= i < left.len() ==> (#[trigger] left[i]).known(gates)
            &&& forall|i: int|
                0 <= i < slots.len() && (#[trigger] slots[i]).known(gates) ==> left.contains(
                    slots[i],
                )
        }),
    decreases slots.len(),
{
    lemma_stranger(slots, gates);
    let (left, gone) = evicting(slots, cap, gates);
    if slots.len() >= cap && oldest_stranger(slots, gates) is Some {
        let at = oldest_stranger(slots, gates)->0;
        let shorter = slots.remove(at);
        eviction_spares_the_authenticated(shorter, cap, gates);
        let (inner_left, inner_gone) = evicting(shorter, cap, gates);
        assert forall|i: int| 0 <= i < gone.len() implies !(
        #[trigger] gone[i]).known(gates) by {
            if i > 0 {
                assert(gone[i] == inner_gone[i - 1]);
            }
        }
        assert forall|i: int|
            0 <= i < slots.len() && (#[trigger] slots[i]).known(gates) implies left.contains(
            slots[i],
        ) by {
            if i < at {
                assert(shorter[i] == slots[i]);
            } else {
                assert(shorter[i - 1] == slots[i]);
            }
        }
    } else {
        assert forall|i: int|
            0 <= i < slots.len() && (#[trigger] slots[i]).known(gates) implies left.contains(
            slots[i],
        ) by {
            assert(left[i] == slots[i]);
        }
    }
}

/// Once a request on a connection has authenticated, through any copy of its
/// gate, the connection keeps its slot.
pub proof fn a_marked_connection_keeps_its_slot(
    slots: Seq<Slot>,
    cap: nat,
    gates: GatesView,
    gate: AuthGate,
    i: int,
)
    requires
        0 <= i < slots.len(),
        slots[i].authenticated.number() == gate.number(),
    ensures
        evicting(slots, cap, gates.marking(gate)).0.contains(slots[i]),
{
    eviction_spares_the_authenticated(slots, cap, gates.marking(gate));
    assert(slots[i].known(gates.marking(gate)));
}

/// Below the cap nobody loses a slot, and no more do than a newcomer needs.
pub proof fn eviction_takes_no_more_than_it_needs(slots: Seq<Slot>, cap: nat, gates: GatesView)
    ensures
        slots.len() < cap ==> evicting(slots, cap, gates) == (slots, Seq::<Slot>::empty()),
        evicting(slots, cap, gates).1.len() > 0 && cap > 0 ==> evicting(slots, cap, gates).0.len()
            + 1 >= cap,
    decreases slots.len(),
{
    if slots.len() >= cap && oldest_stranger(slots, gates) is Some {
        lemma_stranger(slots, gates);
        let at = oldest_stranger(slots, gates)->0;
        eviction_takes_no_more_than_it_needs(slots.remove(at), cap, gates);
    }
}

/// How many of these connections have authenticated.
pub open spec fn authenticated_among(slots: Seq<Slot>, gates: GatesView) -> nat
    decreases slots.len(),
{
    if slots.len() == 0 {
        0
    } else {
        authenticated_among(slots.drop_last(), gates) + if slots.last().known(gates) {
            1nat
        } else {
            0nat
        }
    }
}

proof fn lemma_strangers_do_not_count(slots: Seq<Slot>, at: int, gates: GatesView)
    requires
        0 <= at < slots.len(),
        !slots[at].known(gates),
    ensures
        authenticated_among(slots.remove(at), gates) == authenticated_among(slots, gates),
    decreases slots.len(),
{
    if at == slots.len() - 1 {
        assert(slots.remove(at) =~= slots.drop_last());
    } else {
        lemma_strangers_do_not_count(slots.drop_last(), at, gates);
        assert(slots.remove(at).drop_last() =~= slots.drop_last().remove(at));
    }
}

proof fn lemma_all_authenticated(slots: Seq<Slot>, gates: GatesView)
    ensures
        authenticated_among(slots, gates) <= slots.len(),
        oldest_stranger(slots, gates) is None ==> authenticated_among(slots, gates) == slots.len(),
    decreases slots.len(),
{
    if slots.len() > 0 {
        lemma_all_authenticated(slots.drop_last(), gates);
    }
}

/// Eviction makes room for a newcomer exactly where fewer than `cap` connections
/// have authenticated: no number of strangers keeps it out.
pub proof fn only_the_authenticated_fill_a_server(slots: Seq<Slot>, cap: nat, gates: GatesView)
    ensures
        evicting(slots, cap, gates).0.len() < cap <==> authenticated_among(slots, gates) < cap,
    decreases slots.len(),
{
    lemma_stranger(slots, gates);
    lemma_all_authenticated(slots, gates);
    if slots.len() >= cap && oldest_stranger(slots, gates) is Some {
        let at = oldest_stranger(slots, gates)->0;
        lemma_strangers_do_not_count(slots, at, gates);
        only_the_authenticated_fill_a_server(slots.remove(at), cap, gates);
    }
}

/// A slot that is given up twice, or after it was taken, is given up once.
pub proof fn a_slot_is_given_up_once(slots: Seq<Slot>, sequence: u64)
    ensures
        without(without(slots, sequence), sequence) == without(slots, sequence),
    decreases slots.len(),
{
    reveal(Seq::filter);
    let keep = |slot: Slot| slot.sequence != sequence;
    if slots.len() > 0 {
        a_slot_is_given_up_once(slots.drop_last(), sequence);
        let kept = slots.drop_last().filter(keep);
        assert(kept.push(slots.last()).drop_last() =~= kept);
    }
}

// ---------------------------------------------------------------------------
// How a connection ended
// ---------------------------------------------------------------------------

/// How serving a connection ended.
#[derive(Debug)]
pub enum Ended {
    /// Its slot was taken.
    Evicted,
    /// It ran to its end.
    Handled(Result<(), ConnectionError>),
}

/// The reason that a connection's closing line gives, where it gives one.
pub open spec fn reason_for(ended: Ended) -> Option<Seq<char>> {
    match ended {
        Ended::Evicted => Some("evicted"@),
        Ended::Handled(Ok(())) => Some("drained"@),
        Ended::Handled(Err(error)) => match goodbye(error) {
            Some(BenignClose::Idle) => Some("idle"@),
            Some(BenignClose::PeerClosed) => Some("peer_close"@),
            None => None,
        },
    }
}

/// The reason a connection's closing line gives, or the error it warns with.
pub fn closing(ended: Ended) -> (closed: Result<&'static str, ConnectionError>)
    ensures
        match closed {
            Ok(reason) => reason_for(ended) == Some(reason@),
            Err(_) => reason_for(ended) is None,
        },
        match ended {
            Ended::Evicted => closed matches Ok(reason) && reason@ == "evicted"@,
            Ended::Handled(Ok(())) => closed matches Ok(reason) && reason@ == "drained"@,
            Ended::Handled(Err(error)) => match goodbye(error) {
                Some(BenignClose::Idle) => closed matches Ok(reason) && reason@ == "idle"@,
                Some(BenignClose::PeerClosed) => closed matches Ok(reason) && reason@
                    == "peer_close"@,
                None => closed == Err::<&'static str, _>(error),
            },
        },
{
    match ended {
        Ended::Evicted => Ok("evicted"),
        Ended::Handled(Ok(())) => Ok("drained"),
        Ended::Handled(Err(error)) => match benign_close(&error) {
            Some(BenignClose::Idle) => Ok("idle"),
            Some(BenignClose::PeerClosed) => Ok("peer_close"),
            None => Err(error),
        },
    }
}

// ---------------------------------------------------------------------------
// Reloading
// ---------------------------------------------------------------------------

/// Which configuration is in force where, by number. Every configuration that is
/// loaded has a number of its own.
pub struct LiveView {
    /// The host names that are let in.
    pub gate: u64,
    /// The users, the policy and the limits.
    pub config: u64,
    /// The transport parameters, or `None` where no connection is accepted.
    pub transport: Option<u64>,
    /// Whether the server is shutting down.
    pub fired: bool,
}

/// The configuration that is in force.
///
/// A reload writes it in three places and a shutdown closes the listener. Each
/// is one step, so nothing is ever half applied.
#[derive(Debug)]
pub struct Live {
    gate: u64,
    config: u64,
    transport: Option<u64>,
    fired: bool,
}

impl View for Live {
    type V = LiveView;

    closed spec fn view(&self) -> LiveView {
        LiveView {
            gate: self.gate,
            config: self.config,
            transport: self.transport,
            fired: self.fired,
        }
    }
}

impl LiveView {
    /// Once a configuration has been loaded again.
    pub open spec fn reloading(self, generation: u64) -> LiveView {
        if self.fired {
            self
        } else {
            LiveView {
                gate: generation,
                config: generation,
                transport: Some(generation),
                ..self
            }
        }
    }

    /// Once the shutdown has started.
    pub open spec fn firing(self) -> LiveView {
        LiveView { fired: true, ..self }
    }

    /// Once the listener is closed.
    pub open spec fn draining(self) -> LiveView {
        LiveView { transport: None, ..self }
    }

    /// Nothing is half applied, and a listener is closed only by a shutdown.
    pub open spec fn well_formed(self) -> bool {
        &&& self.gate == self.config
        &&& match self.transport {
            Some(transport) => transport == self.config,
            None => self.fired,
        }
    }
}

impl Live {
    /// A server that runs on its first configuration.
    pub fn new(generation: u64) -> (live: Live)
        ensures
            live@.well_formed(),
            live@ == (LiveView {
                gate: generation,
                config: generation,
                transport: Some(generation),
                fired: false,
            }),
    {
        Live { gate: generation, config: generation, transport: Some(generation), fired: false }
    }

    /// Applies a configuration that has been loaded, unless the server is shutting
    /// down: a reload must not open a listener again.
    pub fn reload(&mut self, generation: u64) -> (result: Result<(), &'static str>)
        requires
            old(self)@.well_formed(),
        ensures
            final(self)@.well_formed(),
            final(self)@ == old(self)@.reloading(generation),
            match result {
                Ok(()) => !old(self)@.fired && final(self)@ == (LiveView {
                    gate: generation,
                    config: generation,
                    transport: Some(generation),
                    fired: false,
                }),
                Err(text) => old(self)@.fired && final(self)@ == old(self)@ && text@
                    == "the server is shutting down; the configuration was not reloaded"@,
            },
    {
        if self.fired {
            return Err("the server is shutting down; the configuration was not reloaded");
        }
        self.gate = generation;
        self.config = generation;
        self.transport = Some(generation);
        Ok(())
    }

    /// Records that the server is shutting down.
    pub fn fire(&mut self)
        requires
            old(self)@.well_formed(),
        ensures
            final(self)@.well_formed(),
            final(self)@ == (LiveView { fired: true, ..old(self)@ }),
            final(self)@ == old(self)@.firing(),
    {
        self.fired = true;
    }

    /// Closes the listener of a server that is shutting down.
    pub fn drain(&mut self)
        requires
            old(self)@.well_formed(),
            old(self)@.fired,
        ensures
            final(self)@.well_formed(),
            final(self)@ == (LiveView { transport: None, ..old(self)@ }),
            final(self)@ == old(self)@.draining(),
    {
        self.transport = None;
    }

    /// The configuration a connection accepted now runs on, all of it from one
    /// load, or `None` where none is accepted.
    pub fn accept_under_the_swap(&self) -> (generation: Option<u64>)
        requires
            self@.well_formed(),
        ensures
            generation == self@.transport,
            generation is Some ==> generation == Some(self@.config) && self@.gate == self@.config,
    {
        match self.transport {
            Some(_) => Some(self.config),
            None => None,
        }
    }
}

// ---------------------------------------------------------------------------
// Descriptors and socket buffers
// ---------------------------------------------------------------------------

/// Descriptors that the limits allow to be open at once. With no cap on
/// connections, one connection's share is the weakest claim that is still true.
pub open spec fn descriptors(max_connections: u32, max_targets_per_conn: u32) -> nat {
    (if max_connections == 0 {
        1
    } else {
        max_connections as nat
    }) * max_targets_per_conn as nat + FD_HEADROOM as nat
}

/// Descriptors that the limits allow to be open at once.
pub fn fd_budget(max_connections: u32, max_targets_per_conn: u32) -> (needed: u64)
    ensures
        needed == descriptors(max_connections, max_targets_per_conn),
{
    let connections: u64 = if max_connections == 0 {
        1
    } else {
        max_connections as u64
    };
    proof {
        assert((connections as int) * (max_targets_per_conn as int) <= 0xffff_ffff * 0xffff_ffff)
            by (nonlinear_arith)
            requires
                0 <= connections <= 0xffff_ffff,
                0 <= max_targets_per_conn <= 0xffff_ffff,
        ;
    }
    connections * max_targets_per_conn as u64 + FD_HEADROOM
}

/// Whether `limit` descriptors are too few for every connection at its quota.
pub fn fd_budget_is_tight(limit: u64, max_connections: u32, max_targets_per_conn: u32) -> (tight:
    bool)
    ensures
        tight <==> limit < descriptors(max_connections, max_targets_per_conn),
{
    limit < fd_budget(max_connections, max_targets_per_conn)
}

/// The descriptors to warn about, where the soft limit leaves no room for them.
/// No limit leaves room for any.
pub fn warn_if_fd_budget_is_tight(limits: &Limits, fd_soft_limit: Option<u64>) -> (needed: Option<
    u64,
>)
    ensures
        needed == match fd_soft_limit {
            Some(limit) => if limit < descriptors(
                limits.max_connections,
                limits.max_targets_per_conn,
            ) {
                Some(descriptors(limits.max_connections, limits.max_targets_per_conn) as u64)
            } else {
                None
            },
            None => None,
        },
{
    match fd_soft_limit {
        Some(limit) => if fd_budget_is_tight(
            limit,
            limits.max_connections,
            limits.max_targets_per_conn,
        ) {
            Some(fd_budget(limits.max_connections, limits.max_targets_per_conn))
        } else {
            None
        },
        None => None,
    }
}

/// One direction of the endpoint socket's buffer.
#[derive(Debug, Clone, Copy, PartialEq, Eq, Structural)]
pub enum SocketBuffer {
    /// What the kernel holds until the endpoint reads it.
    Recv,
    /// What the kernel holds until the interface sends it.
    Send,
}

impl SocketBuffer {
    /// The setting that asks for this buffer.
    pub open spec fn setting(self) -> Seq<char> {
        match self {
            SocketBuffer::Recv => "limits.socket_recv_buffer"@,
            SocketBuffer::Send => "limits.socket_send_buffer"@,
        }
    }

    /// The name of the kernel's cap on it.
    pub open spec fn ceiling(self) -> Seq<char> {
        match self {
            SocketBuffer::Recv => "net.core.rmem_max"@,
            SocketBuffer::Send => "net.core.wmem_max"@,
        }
    }

    /// The setting that asks for this buffer.
    pub fn key(self) -> (key: &'static str)
        ensures
            key@ == self.setting(),
    {
        match self {
            SocketBuffer::Recv => "limits.socket_recv_buffer",
            SocketBuffer::Send => "limits.socket_send_buffer",
        }
    }

    /// The name of the kernel's cap on it.
    pub fn ceiling_sysctl(self) -> (name: &'static str)
        ensures
            name@ == self.ceiling(),
    {
        match self {
            SocketBuffer::Recv => "net.core.rmem_max",
            SocketBuffer::Send => "net.core.wmem_max",
        }
    }

    /// What is said where the kernel refused the buffer.
    pub open spec fn refusal(self) -> Seq<char> {
        "the kernel refused the UDP socket buffer "@ + self.setting()
            + " asks for, so the socket keeps the operating system default. Lower the value, or raise this host's ceiling ("@
            + self.ceiling() + " on Linux, kern.ipc.maxsockbuf on macOS)."@
    }

    /// What is said where the kernel granted less than was asked for.
    pub open spec fn shortage(self) -> Seq<char> {
        "the kernel granted less UDP socket buffer than "@ + self.setting()
            + " asks for: a burst that outruns this socket is dropped there, silently, and has to be sent again. Raise this host's ceiling (sysctl -w "@
            + self.ceiling() + "=<bytes> on Linux, kern.ipc.maxsockbuf on macOS) or lower "@
            + self.setting() + " so it stops asking for more than the host allows."@
    }

    fn refusal_text(self) -> (text: String)
        ensures
            text@ == self.refusal(),
    {
        let mut text = "the kernel refused the UDP socket buffer ".to_owned();
        text.append(self.key());
        text.append(
            " asks for, so the socket keeps the operating system default. Lower the value, or raise this host's ceiling (",
        );
        text.append(self.ceiling_sysctl());
        text.append(" on Linux, kern.ipc.maxsockbuf on macOS).");
        text
    }

    fn shortage_text(self) -> (text: String)
        ensures
            text@ == self.shortage(),
    {
        let mut text = "the kernel granted less UDP socket buffer than ".to_owned();
        text.append(self.key());
        text.append(
            " asks for: a burst that outruns this socket is dropped there, silently, and has to be sent again. Raise this host's ceiling (sysctl -w ",
        );
        text.append(self.ceiling_sysctl());
        text.append("=<bytes> on Linux, kern.ipc.maxsockbuf on macOS) or lower ");
        text.append(self.key());
        text.append(" so it stops asking for more than the host allows.");
        text
    }
}

/// Whether the kernel granted less buffer than was asked for. It may well grant
/// more: Linux reports twice what it granted.
pub fn socket_buffer_was_capped(requested: usize, granted: usize) -> (capped: bool)
    ensures
        capped <==> granted < requested,
{
    granted < requested
}

/// What came of asking the kernel for a buffer.
#[derive(Debug)]
pub struct BufferReport {
    /// The size the kernel reports, if it would say.
    pub granted: Option<usize>,
    /// What to warn about.
    pub warning: Option<String>,
}

/// What is warned of where a buffer was asked for: that the kernel refused it, or
/// that it granted less.
pub open spec fn warning_for(
    which: SocketBuffer,
    requested: usize,
    refused: bool,
    granted: Option<usize>,
) -> Option<Seq<char>> {
    if requested == 0 {
        None
    } else if refused {
        Some(which.refusal())
    } else if granted is Some && granted->0 < requested {
        Some(which.shortage())
    } else {
        None
    }
}

/// Judges what came of asking the kernel for a buffer of `requested` bytes:
/// whether it refused, and the size it reports afterwards.
///
/// Asking for nothing warns of nothing, and a refusal is warned of once.
pub fn request_socket_buffer(
    which: SocketBuffer,
    requested: usize,
    refused: bool,
    granted: Option<usize>,
) -> (report: BufferReport)
    ensures
        report.granted == granted,
        match report.warning {
            Some(text) => warning_for(which, requested, refused, granted) == Some(text@),
            None => warning_for(which, requested, refused, granted) is None,
        },
        match report.warning {
            Some(text) => requested > 0 && if refused {
                text@ == which.refusal()
            } else {
                text@ == which.shortage() && (granted matches Some(size) && size < requested)
            },
            None => requested == 0 || (!refused && !(granted matches Some(size) && size
                < requested)),
        },
{
    if requested == 0 {
        return BufferReport { granted, warning: None };
    }
    if refused {
        return BufferReport { granted, warning: Some(which.refusal_text()) };
    }
    if let Some(size) = granted {
        if socket_buffer_was_capped(requested, size) {
            return BufferReport { granted, warning: Some(which.shortage_text()) };
        }
    }
    BufferReport { granted, warning: None }
}

} // verus!
