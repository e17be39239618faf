//! One HTTP/3 connection: its critical streams, its GOAWAY, and the routing of
//! HTTP Datagrams to the sessions that claimed them.

use std::collections::{HashMap, VecDeque};

use bytes::Bytes;
use vstd::arithmetic::power2::is_pow2;
use vstd::prelude::*;
use vstd::string::StringExecFns;

use crate::buf::{
    bytes_mut_extend, bytes_mut_freeze, bytes_mut_new, bytes_mut_slice, bytes_slice, held, written,
};
use crate::datagram::{
    CONTEXT_ID_UDP_PAYLOAD, Datagram, DatagramView, VARINT_MAX, datagram_of, decode, peek_varint,
    put_varint, varint_bytes, varint_len, varint_prefix, varint_round_trip, varint_size,
    varint_width,
};
use crate::h3::error::{
    Code, ConnectionError, Fault, StreamError, TransferError, TransportError, Violation,
};
use crate::h3::frame::{
    DecoderView, Error, Frame, FrameView, GOAWAY, Item, ItemView, SETTINGS, Settings, advertised,
    at_boundary, header_bytes, next_step, pairs_bytes, put_header, settings_payload,
};
use crate::h3::frame_laws::{a_whole_frame_comes_out, own_settings_parse};
use crate::h3::{HEADERS_BUFFER_BUDGET, varint};
use crate::logfmt::Sampler;
use crate::text::{decimal, decimal_text};

verus! {

/// The stream type of a control stream (RFC 9114 section 6.2.1).
pub const STREAM_CONTROL: u64 = 0x00;

/// The stream type of a push stream (RFC 9114 section 6.2.2).
pub const STREAM_PUSH: u64 = 0x01;

/// The stream type of a QPACK encoder stream (RFC 9204 section 4.2).
pub const STREAM_QPACK_ENCODER: u64 = 0x02;

/// The stream type of a QPACK decoder stream (RFC 9204 section 4.2).
pub const STREAM_QPACK_DECODER: u64 = 0x03;

/// How far apart the IDs of request streams are (RFC 9000 section 2.1).
pub const REQUEST_STREAM_STEP: u64 = 4;

/// How many datagrams wait for one session before further ones are dropped.
pub const INBOUND_QUEUE_DEPTH: usize = 64;

/// How many bytes may continue an integer on a QPACK stream: seven bits each,
/// behind a prefix, within 62 bits.
pub const MAX_INTEGER_CONTINUATION: usize = 9;

// ---------------------------------------------------------------------------
// What the streams of a connection share
// ---------------------------------------------------------------------------

/// Why a datagram was dropped.
#[derive(Debug, Clone, Copy, PartialEq, Eq, Structural)]
pub enum DropKind {
    /// Its Context ID is none this server knows.
    UnknownContext,
    /// No session claims its Quarter Stream ID.
    Unroutable,
    /// The session's queue is full.
    QueueFull,
    /// It ends before its Context ID does.
    Malformed,
}

/// What the streams of a connection share.
pub struct SharedView {
    /// Whether the peer has advertised support for datagrams.
    pub peer_datagrams: bool,
    /// The datagrams waiting for each session, by Quarter Stream ID.
    pub sessions: Map<u64, Seq<Seq<u8>>>,
    /// The violation this server closed the connection over.
    pub local_error: Option<Fault>,
    /// Whether the peer has opened its control stream.
    pub control_seen: bool,
    /// Whether the peer has opened its QPACK encoder stream.
    pub encoder_seen: bool,
    /// Whether the peer has opened its QPACK decoder stream.
    pub decoder_seen: bool,
    /// How many datagrams have been dropped.
    pub dropped: u64,
    /// How many of those had an unknown Context ID.
    pub unknown_context: u64,
    /// How many had no session.
    pub unroutable: u64,
    /// How many found a full queue.
    pub queue_full: u64,
    /// How many ended before their Context ID did.
    pub malformed: u64,
}

/// The number behind `count`, in a counter that wraps.
pub open spec fn counted(count: u64) -> u64 {
    ((count + 1) % 0x1_0000_0000_0000_0000) as u64
}

/// What is said aloud about the `total`th occurrence: the total, on a doubling
/// schedule.
pub open spec fn sampled(total: u64) -> Option<u64> {
    if is_pow2(total as int) {
        Some(total)
    } else {
        None
    }
}

impl SharedView {
    /// A connection on which nothing has happened.
    pub open spec fn fresh() -> SharedView {
        SharedView {
            peer_datagrams: false,
            sessions: Map::empty(),
            local_error: None,
            control_seen: false,
            encoder_seen: false,
            decoder_seen: false,
            dropped: 0,
            unknown_context: 0,
            unroutable: 0,
            queue_full: 0,
            malformed: 0,
        }
    }

    /// No queue holds more than it may.
    pub open spec fn well_formed(self) -> bool {
        forall|id: u64|
            self.sessions.contains_key(id) ==> (#[trigger] self.sessions[id]).len()
                <= INBOUND_QUEUE_DEPTH
    }

    /// How many datagrams have been dropped for one reason.
    pub open spec fn drops(self, kind: DropKind) -> u64 {
        match kind {
            DropKind::UnknownContext => self.unknown_context,
            DropKind::Unroutable => self.unroutable,
            DropKind::QueueFull => self.queue_full,
            DropKind::Malformed => self.malformed,
        }
    }

    /// With one more drop counted.
    pub open spec fn dropping(self, kind: DropKind) -> SharedView {
        let dropped = counted(self.dropped);
        match kind {
            DropKind::UnknownContext => SharedView {
                dropped,
                unknown_context: counted(self.unknown_context),
                ..self
            },
            DropKind::Unroutable => SharedView {
                dropped,
                unroutable: counted(self.unroutable),
                ..self
            },
            DropKind::QueueFull => SharedView {
                dropped,
                queue_full: counted(self.queue_full),
                ..self
            },
            DropKind::Malformed => SharedView {
                dropped,
                malformed: counted(self.malformed),
                ..self
            },
        }
    }

    /// Why a datagram cannot be delivered, if it cannot.
    pub open spec fn obstacle(self, datagram: DatagramView) -> Option<DropKind> {
        if datagram.context_id != CONTEXT_ID_UDP_PAYLOAD {
            Some(DropKind::UnknownContext)
        } else if !self.sessions.contains_key(datagram.quarter_stream_id) {
            Some(DropKind::Unroutable)
        } else if self.sessions[datagram.quarter_stream_id].len() >= INBOUND_QUEUE_DEPTH {
            Some(DropKind::QueueFull)
        } else {
            None
        }
    }

    /// Once a datagram has been delivered or dropped.
    pub open spec fn delivering(self, datagram: DatagramView) -> SharedView {
        match self.obstacle(datagram) {
            Some(kind) => self.dropping(kind),
            None => SharedView {
                sessions: self.sessions.insert(
                    datagram.quarter_stream_id,
                    self.sessions[datagram.quarter_stream_id].push(datagram.payload),
                ),
                ..self
            },
        }
    }

    /// Once a session has claimed a Quarter Stream ID that nobody has.
    pub open spec fn claiming(self, id: u64) -> SharedView {
        if self.sessions.contains_key(id) {
            self
        } else {
            SharedView { sessions: self.sessions.insert(id, Seq::empty()), ..self }
        }
    }

    /// The payload that a session takes next, if one is waiting.
    pub open spec fn next_payload(self, id: u64) -> Option<Seq<u8>> {
        if self.sessions.contains_key(id) && self.sessions[id].len() > 0 {
            Some(self.sessions[id][0])
        } else {
            None
        }
    }

    /// Once a session has taken the payload that waits first.
    pub open spec fn handing_over(self, id: u64) -> SharedView {
        if self.next_payload(id) is Some {
            SharedView {
                sessions: self.sessions.insert(id, self.sessions[id].drop_first()),
                ..self
            }
        } else {
            self
        }
    }

    /// Once a session has given its claim up.
    pub open spec fn unclaiming(self, id: u64) -> SharedView {
        SharedView { sessions: self.sessions.remove(id), ..self }
    }

    /// What is said aloud about a drop.
    pub open spec fn report(self, kind: DropKind) -> Option<(DropKind, u64)> {
        match sampled(counted(self.drops(kind))) {
            Some(total) => Some((kind, total)),
            None => None,
        }
    }

    /// The violation that is reported once `fault` has been recorded: only the
    /// first is kept.
    pub open spec fn first_fault(self, fault: Fault) -> Fault {
        match self.local_error {
            Some(first) => first,
            None => fault,
        }
    }

    /// Once a violation has been recorded.
    pub open spec fn recording(self, fault: Fault) -> SharedView {
        SharedView { local_error: Some(self.first_fault(fault)), ..self }
    }
}

/// The payloads of a queue, in bytes.
pub open spec fn queue_bytes(queue: Seq<Bytes>) -> Seq<Seq<u8>> {
    Seq::new(queue.len(), |i: int| held(queue[i]))
}

/// A close of the whole connection, as it goes to the transport.
#[derive(Debug)]
pub struct Close {
    /// The code of the close.
    pub code: u64,
    /// The reason phrase of the close.
    pub reason: String,
    /// How the connection is reported to have ended.
    pub error: ConnectionError,
}

/// The code a QUIC close carries for `code`.
pub open spec fn wire_code(code: Code) -> u64 {
    if code.number() <= VARINT_MAX {
        code.number()
    } else {
        VARINT_MAX
    }
}

impl Close {
    /// Whether this closes the connection over `fault`.
    pub open spec fn is_over(self, fault: Fault) -> bool {
        &&& self.code == wire_code(fault.code)
        &&& self.reason@ == fault.text()
        &&& self.error matches ConnectionError::Local(violation) && violation@ == fault
    }
}

/// What becomes of a connection whose critical stream could not be written.
#[derive(Debug)]
pub enum Failure {
    /// It is over already.
    Lost(ConnectionError),
    /// It has to be closed.
    Close(Close),
}

/// What becomes of a connection once a datagram has been routed.
#[derive(Debug)]
pub enum Routed {
    /// It carries on; a drop may be worth a line in the log.
    Continue(Option<(DropKind, u64)>),
    /// It has to be closed.
    Break(Close),
}

/// What the streams of one connection share.
#[derive(Debug)]
pub struct Shared {
    peer_datagrams: bool,
    sessions: HashMap<u64, VecDeque<Bytes>>,
    local_error: Option<Violation>,
    control_seen: bool,
    encoder_seen: bool,
    decoder_seen: bool,
    dropped_datagrams: u64,
    unknown_context_drops: Sampler,
    unroutable_drops: Sampler,
    queue_full_drops: Sampler,
    malformed_drops: Sampler,
}

impl View for Shared {
    type V = SharedView;

    closed spec fn view(&self) -> SharedView {
        SharedView {
            peer_datagrams: self.peer_datagrams,
            sessions: self.sessions@.map_values(|queue: VecDeque<Bytes>| queue_bytes(queue@)),
            local_error: match self.local_error {
                Some(violation) => Some(violation@),
                None => None,
            },
            control_seen: self.control_seen,
            encoder_seen: self.encoder_seen,
            decoder_seen: self.decoder_seen,
            dropped: self.dropped_datagrams,
            unknown_context: self.unknown_context_drops.recorded(),
            unroutable: self.unroutable_drops.recorded(),
            queue_full: self.queue_full_drops.recorded(),
            malformed: self.malformed_drops.recorded(),
        }
    }
}

impl Default for Shared {
    fn default() -> (shared: Shared)
        ensures
            shared@ == SharedView::fresh(),
    {
        Shared::new()
    }
}

impl Shared {
    /// A connection on which nothing has happened.
    pub fn new() -> (shared: Shared)
        ensures
            shared@ == SharedView::fresh(),
    {
        broadcast use vstd::std_specs::hash::group_hash_axioms;

        let shared = Shared {
            peer_datagrams: false,
            sessions: HashMap::new(),
            local_error: None,
            control_seen: false,
            encoder_seen: false,
            decoder_seen: false,
            dropped_datagrams: 0,
            unknown_context_drops: Sampler::new(),
            unroutable_drops: Sampler::new(),
            queue_full_drops: Sampler::new(),
            malformed_drops: Sampler::new(),
        };
        assert(shared@.sessions =~= Map::empty());
        shared
    }

    /// Whether the peer has advertised support for datagrams.
    pub fn peer_datagrams(&self) -> (supported: bool)
        ensures
            supported == self@.peer_datagrams,
    {
        self.peer_datagrams
    }

    /// How many datagrams have been dropped.
    pub fn dropped_datagrams(&self) -> (dropped: u64)
        ensures
            dropped == self@.dropped,
    {
        self.dropped_datagrams
    }

    /// How many sessions hold a Quarter Stream ID.
    pub fn sessions(&self) -> (count: usize)
        ensures
            count == self@.sessions.dom().len(),
    {
        broadcast use vstd::std_specs::hash::group_hash_axioms;

        proof {
            assert(self@.sessions.dom() =~= self.sessions@.dom());
        }
        self.sessions.len()
    }

    /// Keeps the first violation and returns it: the close on the wire and every
    /// report of it agree.
    pub fn record(&mut self, violation: Violation) -> (kept: Violation)
        ensures
            final(self)@ == old(self)@.recording(violation@),
            kept@ == old(self)@.first_fault(violation@),
    {
        if let Some(first) = &self.local_error {
            return first.clone();
        }
        let kept = violation.clone();
        self.local_error = Some(violation);
        kept
    }

    /// Closes the connection over a violation, or over the one that came before
    /// it.
    pub fn fail(&mut self, violation: Violation) -> (close: Close)
        ensures
            final(self)@ == old(self)@.recording(violation@),
            close.is_over(old(self)@.first_fault(violation@)),
    {
        let stored = self.record(violation);
        Close {
            code: varint(stored.code()),
            reason: stored.to_string(),
            error: ConnectionError::Local(stored),
        }
    }

    /// Reads a transport error: a connection this server closed over a violation
    /// ended over that violation.
    pub fn interpret(&self, error: TransportError) -> (result: ConnectionError)
        ensures
            match (error, self@.local_error) {
                (TransportError::LocallyClosed, Some(fault)) =>
                    result matches ConnectionError::Local(violation) && violation@ == fault,
                _ => result.files(error),
            },
    {
        match (&error, &self.local_error) {
            (TransportError::LocallyClosed, Some(violation)) => ConnectionError::Local(
                violation.clone(),
            ),
            _ => ConnectionError::from(error),
        }
    }

    /// What a failed write on a critical stream means: the connection is over, or
    /// has to be closed, since it cannot do without the stream.
    pub fn critical_write(&mut self, error: TransferError) -> (failure: Failure)
        ensures
            match error {
                TransferError::ConnectionLost(lost) => {
                    &&& final(self)@ == old(self)@
                    &&& failure matches Failure::Lost(inner) && inner.files(lost)
                },
                _ => {
                    let fault = Fault::connection(Code::H3_CLOSED_CRITICAL_STREAM, error.text());
                    &&& final(self)@ == old(self)@.recording(fault)
                    &&& failure matches Failure::Close(close) && close.is_over(
                        old(self)@.first_fault(fault),
                    )
                },
            },
    {
        match error {
            TransferError::ConnectionLost(lost) => Failure::Lost(ConnectionError::from(lost)),
            other => {
                let detail = other.to_string();
                Failure::Close(
                    self.fail(
                        Violation::connection(Code::H3_CLOSED_CRITICAL_STREAM, detail.as_str()),
                    ),
                )
            },
        }
    }

    /// Closes a connection whose HTTP/3 handshake did not complete in time.
    pub fn handshake_expired(&mut self) -> (close: Close)
        ensures
            ({
                let fault = Fault::connection(
                    Code::H3_STREAM_CREATION_ERROR,
                    "the HTTP/3 handshake did not complete within one idle timeout"@,
                );
                &&& final(self)@ == old(self)@.recording(fault)
                &&& close.is_over(old(self)@.first_fault(fault))
            }),
    {
        self.fail(
            Violation::connection(
                Code::H3_STREAM_CREATION_ERROR,
                "the HTTP/3 handshake did not complete within one idle timeout",
            ),
        )
    }

    /// Claims a Quarter Stream ID for a session, unless one has it.
    pub fn register_datagrams(&mut self, quarter_stream_id: u64) -> (receiver: Option<
        DatagramReceiver,
    >)
        ensures
            final(self)@ == old(self)@.claiming(quarter_stream_id),
            match receiver {
                Some(receiver) => !old(self)@.sessions.contains_key(quarter_stream_id)
                    && receiver.id() == quarter_stream_id && final(self)@ == (SharedView {
                    sessions: old(self)@.sessions.insert(quarter_stream_id, Seq::empty()),
                    ..old(self)@
                }),
                None => old(self)@.sessions.contains_key(quarter_stream_id) && final(self)@
                    == old(self)@,
            },
    {
        broadcast use vstd::std_specs::hash::group_hash_axioms;

        if self.sessions.contains_key(&quarter_stream_id) {
            return None;
        }
        let queue: VecDeque<Bytes> = VecDeque::new();
        assert(queue_bytes(queue@) =~= Seq::<Seq<u8>>::empty());
        self.sessions.insert(quarter_stream_id, queue);
        assert(self@.sessions =~= old(self)@.sessions.insert(quarter_stream_id, Seq::empty()));
        Some(DatagramReceiver { quarter_stream_id })
    }

    /// Counts a dropped datagram; the running total where this one is to be
    /// reported.
    pub fn count_drop(&mut self, kind: DropKind) -> (report: Option<u64>)
        ensures
            final(self)@ == old(self)@.dropping(kind),
            report == sampled(counted(old(self)@.drops(kind))),
    {
        self.dropped_datagrams = self.dropped_datagrams.wrapping_add(1);
        match kind {
            DropKind::UnknownContext => self.unknown_context_drops.record(),
            DropKind::Unroutable => self.unroutable_drops.record(),
            DropKind::QueueFull => self.queue_full_drops.record(),
            DropKind::Malformed => self.malformed_drops.record(),
        }
    }

    /// Delivers a datagram to the session that claimed it, or drops it.
    ///
    /// The router never waits: a session that does not drain its queue loses
    /// what comes after it is full. The result is what to say about a drop.
    pub fn deliver(&mut self, decoded: Datagram) -> (report: Option<(DropKind, u64)>)
        requires
            old(self)@.well_formed(),
        ensures
            final(self)@.well_formed(),
            final(self)@ == old(self)@.delivering(decoded@),
            report == match old(self)@.obstacle(decoded@) {
                Some(kind) => old(self)@.report(kind),
                None => None,
            },
    {
        broadcast use vstd::std_specs::hash::group_hash_axioms;

        let ghost before = self@;
        let kind: DropKind = if decoded.context_id != CONTEXT_ID_UDP_PAYLOAD {
            DropKind::UnknownContext
        } else {
            match self.sessions.remove(&decoded.quarter_stream_id) {
                None => {
                    assert(self@.sessions =~= before.sessions);
                    DropKind::Unroutable
                },
                Some(mut queue) => {
                    let ghost waiting = queue_bytes(queue@);
                    assert(before.sessions[decoded.quarter_stream_id] == waiting);
                    let full: bool = queue.len() >= INBOUND_QUEUE_DEPTH;
                    if !full {
                        queue.push_back(decoded.payload);
                        assert(queue_bytes(queue@) =~= waiting.push(held(decoded.payload)));
                    }
                    self.sessions.insert(decoded.quarter_stream_id, queue);
                    if !full {
                        assert(self@.sessions =~= before.sessions.insert(
                            decoded.quarter_stream_id,
                            waiting.push(held(decoded.payload)),
                        ));
                        return None;
                    }
                    assert(self@.sessions =~= before.sessions);
                    DropKind::QueueFull
                },
            }
        };
        match self.count_drop(kind) {
            Some(total) => Some((kind, total)),
            None => None,
        }
    }

    /// Routes a QUIC datagram: delivered, dropped, or a fault of the connection.
    pub fn route_datagram(&mut self, datagram: Bytes) -> (routed: Routed)
        requires
            old(self)@.well_formed(),
        ensures
            final(self)@.well_formed(),
            match datagram_of(held(datagram)) {
                Ok(decoded) => {
                    &&& final(self)@ == old(self)@.delivering(decoded)
                    &&& routed == Routed::Continue(
                        match old(self)@.obstacle(decoded) {
                            Some(kind) => old(self)@.report(kind),
                            None => None,
                        },
                    )
                },
                Err(error) => if error.fatal() {
                    let fault = Fault::connection(
                        Code::H3_DATAGRAM_ERROR,
                        "an unusable HTTP datagram: "@ + error.text(),
                    );
                    &&& final(self)@ == old(self)@.recording(fault)
                    &&& routed matches Routed::Break(close) && close.is_over(
                        old(self)@.first_fault(fault),
                    )
                } else {
                    &&& final(self)@ == old(self)@.dropping(DropKind::Malformed)
                    &&& routed == Routed::Continue(old(self)@.report(DropKind::Malformed))
                },
            },
    {
        match decode(datagram) {
            Ok(decoded) => Routed::Continue(self.deliver(decoded)),
            Err(error) => if error.is_connection_error() {
                let mut detail = "an unusable HTTP datagram: ".to_owned();
                let what = error.to_string();
                detail.append(what.as_str());
                Routed::Break(
                    self.fail(Violation::connection(Code::H3_DATAGRAM_ERROR, detail.as_str())),
                )
            } else {
                match self.count_drop(DropKind::Malformed) {
                    Some(total) => Routed::Continue(Some((DropKind::Malformed, total))),
                    None => Routed::Continue(None),
                }
            },
        }
    }
}

/// One session's claim on a Quarter Stream ID.
#[derive(Debug)]
pub struct DatagramReceiver {
    quarter_stream_id: u64,
}

impl DatagramReceiver {
    /// The claimed Quarter Stream ID.
    pub closed spec fn id(self) -> u64 {
        self.quarter_stream_id
    }

    /// The next datagram that is waiting for the session, if one is.
    pub fn recv(&mut self, shared: &mut Shared) -> (payload: Option<Bytes>)
        ensures
            final(self).id() == old(self).id(),
            final(shared)@ == old(shared)@.handing_over(old(self).id()),
            match payload {
                Some(bytes) => old(shared)@.next_payload(old(self).id()) == Some(held(bytes)),
                None => old(shared)@.next_payload(old(self).id()) is None,
            },
            ({
                let id = old(self).id();
                let queue = old(shared)@.sessions[id];
                if old(shared)@.sessions.contains_key(id) && queue.len() > 0 {
                    &&& payload matches Some(bytes) && held(bytes) == queue[0]
                    &&& final(shared)@ == (SharedView {
                        sessions: old(shared)@.sessions.insert(id, queue.drop_first()),
                        ..old(shared)@
                    })
                } else {
                    payload is None && final(shared)@ == old(shared)@
                }
            }),
    {
        broadcast use vstd::std_specs::hash::group_hash_axioms;

        let ghost before = shared@;
        match shared.sessions.remove(&self.quarter_stream_id) {
            None => {
                assert(shared@.sessions =~= before.sessions);
                None
            },
            Some(mut queue) => {
                let ghost waiting = queue_bytes(queue@);
                assert(before.sessions[self.quarter_stream_id] == waiting);
                let payload = queue.pop_front();
                proof {
                    if payload is Some {
                        assert(queue_bytes(queue@) =~= waiting.drop_first());
                    } else {
                        assert(queue_bytes(queue@) =~= waiting);
                    }
                }
                shared.sessions.insert(self.quarter_stream_id, queue);
                proof {
                    if payload is Some {
                        assert(shared@.sessions =~= before.sessions.insert(
                            self.quarter_stream_id,
                            waiting.drop_first(),
                        ));
                    } else {
                        assert(shared@.sessions =~= before.sessions);
                    }
                }
                payload
            },
        }
    }

    /// Gives the claim up: what is still waiting is gone, and the Quarter Stream
    /// ID is free again.
    pub fn release(self, shared: &mut Shared)
        ensures
            final(shared)@ == old(shared)@.unclaiming(self.id()),
            final(shared)@ == (SharedView {
                sessions: old(shared)@.sessions.remove(self.id()),
                ..old(shared)@
            }),
    {
        broadcast use vstd::std_specs::hash::group_hash_axioms;

        shared.sessions.remove(&self.quarter_stream_id);
        assert(shared@.sessions =~= old(shared)@.sessions.remove(self.id()));
    }
}

// ---------------------------------------------------------------------------
// The streams this server opens, and its GOAWAY
// ---------------------------------------------------------------------------

/// What this server's control stream starts with: its type and SETTINGS.
pub open spec fn control_preface_bytes() -> Seq<u8> {
    let settings = pairs_bytes(advertised());
    varint_bytes(STREAM_CONTROL) + header_bytes(SETTINGS, settings.len() as u64) + settings
}

/// What this server's control stream starts with: its type and SETTINGS.
pub fn control_preface() -> (preface: Bytes)
    ensures
        held(preface) == control_preface_bytes(),
{
    let settings = settings_payload();
    let payload = bytes_mut_slice(&settings);
    let mut preface = bytes_mut_new();
    put_varint(&mut preface, STREAM_CONTROL);
    put_header(&mut preface, SETTINGS, payload.len() as u64);
    bytes_mut_extend(&mut preface, payload);
    assert(written(preface) =~= control_preface_bytes());
    bytes_mut_freeze(preface)
}

/// What a unidirectional stream of this server starts with: its type.
pub fn stream_preface(stream_type: u64) -> (preface: Bytes)
    requires
        stream_type <= VARINT_MAX,
    ensures
        held(preface) == varint_bytes(stream_type),
{
    let mut header = bytes_mut_new();
    put_varint(&mut header, stream_type);
    assert(written(header) =~= varint_bytes(stream_type));
    bytes_mut_freeze(header)
}

/// The first request this server will not serve, given the last it has accepted.
pub open spec fn first_unserved(last_accepted: Option<u64>) -> u64 {
    match last_accepted {
        None => 0,
        Some(id) => if id + REQUEST_STREAM_STEP > VARINT_MAX {
            VARINT_MAX
        } else {
            (id + REQUEST_STREAM_STEP) as u64
        },
    }
}

/// The first request this server will not serve, given the last it has accepted.
///
/// It goes on the wire as a variable-length integer, so it stays within one.
pub fn next_request_id(last_accepted: Option<u64>) -> (id: u64)
    ensures
        id == first_unserved(last_accepted),
        id <= VARINT_MAX,
{
    match last_accepted {
        None => 0,
        Some(id) => {
            let next: u64 = id.saturating_add(REQUEST_STREAM_STEP);
            if next > VARINT_MAX {
                VARINT_MAX
            } else {
                next
            }
        },
    }
}

/// The identifier of the next GOAWAY, given the last request accepted and the
/// identifier of the GOAWAY before it: the first request that will not be served,
/// and never more than was promised.
pub open spec fn promised(last_accepted: Option<u64>, going_away: Option<u64>) -> u64 {
    match going_away {
        Some(sent) => if sent <= first_unserved(last_accepted) {
            sent
        } else {
            first_unserved(last_accepted)
        },
        None => first_unserved(last_accepted),
    }
}

/// Whether a request is to be served, given the identifier of the last GOAWAY.
pub open spec fn served(going_away: Option<u64>, id: u64) -> bool {
    match going_away {
        Some(first_rejected) => id < first_rejected,
        None => true,
    }
}

/// A GOAWAY frame on the wire.
pub open spec fn goaway_bytes(identifier: u64) -> Seq<u8> {
    header_bytes(GOAWAY, varint_size(identifier) as u64) + varint_bytes(identifier)
}

/// Which requests a connection takes.
#[derive(Debug)]
pub struct Connection {
    last_accepted: Option<u64>,
    going_away: Option<u64>,
}

impl Connection {
    /// The last request that was accepted.
    pub closed spec fn last_accepted(self) -> Option<u64> {
        self.last_accepted
    }

    /// The identifier of the last GOAWAY that was sent.
    pub closed spec fn going_away(self) -> Option<u64> {
        self.going_away
    }

    /// What was promised on the wire fits there.
    pub open spec fn well_formed(self) -> bool {
        self.going_away() matches Some(sent) ==> sent <= VARINT_MAX
    }

    /// A connection that has accepted nothing.
    pub fn new() -> (connection: Connection)
        ensures
            connection.last_accepted() is None,
            connection.going_away() is None,
            connection.well_formed(),
    {
        Connection { last_accepted: None, going_away: None }
    }

    /// Whether a request stream that has arrived is to be served. One at or past
    /// the identifier of a GOAWAY is not, and is reset with
    /// H3_REQUEST_REJECTED.
    pub fn accept(&mut self, id: u64) -> (accepted: bool)
        requires
            old(self).well_formed(),
        ensures
            final(self).well_formed(),
            final(self).going_away() == old(self).going_away(),
            accepted == served(old(self).going_away(), id),
            accepted <==> !(old(self).going_away() matches Some(first_rejected) && id
                >= first_rejected),
            final(self).last_accepted() == if accepted {
                Some(id)
            } else {
                old(self).last_accepted()
            },
    {
        if let Some(first_rejected) = self.going_away {
            if id >= first_rejected {
                return false;
            }
        }
        self.last_accepted = Some(id);
        true
    }

    /// Starts the graceful shutdown: the GOAWAY frame to send. The identifier
    /// never grows from one GOAWAY to the next.
    pub fn shutdown(&mut self) -> (goaway: Bytes)
        requires
            old(self).well_formed(),
        ensures
            final(self).well_formed(),
            final(self).last_accepted() == old(self).last_accepted(),
            ({
                let identifier = promised(old(self).last_accepted(), old(self).going_away());
                &&& final(self).going_away() == Some(identifier)
                &&& held(goaway) == goaway_bytes(identifier)
            }),
    {
        let next: u64 = next_request_id(self.last_accepted);
        let identifier: u64 = match self.going_away {
            Some(sent) => if sent <= next {
                sent
            } else {
                next
            },
            None => next,
        };
        self.going_away = Some(identifier);
        let mut goaway = bytes_mut_new();
        put_header(&mut goaway, GOAWAY, varint_len(identifier) as u64);
        put_varint(&mut goaway, identifier);
        assert(written(goaway) =~= goaway_bytes(identifier));
        bytes_mut_freeze(goaway)
    }

    /// A close with nothing to report but a reason.
    pub fn close_quietly(&self, reason: &str) -> (close: Close)
        ensures
            close.code == Code::H3_NO_ERROR.number(),
            close.reason@ == reason@,
            close.error matches ConnectionError::Local(violation) && violation@
                == Fault::connection(Code::H3_NO_ERROR, reason@),
    {
        Close {
            code: varint(Code::H3_NO_ERROR),
            reason: reason.to_owned(),
            error: ConnectionError::Local(Violation::connection(Code::H3_NO_ERROR, reason)),
        }
    }

    /// The code and reason a connection is closed with when it is given up.
    pub fn farewell() -> (close: (u64, &'static str))
        ensures
            close.0 == Code::H3_NO_ERROR.number(),
            close.1@ == "connection closed by the server"@,
    {
        (varint(Code::H3_NO_ERROR), "connection closed by the server")
    }
}

// ---------------------------------------------------------------------------
// The streams the peer opens
// ---------------------------------------------------------------------------

/// What reading the type of a unidirectional stream comes to.
#[derive(Debug, Clone, Copy, PartialEq, Eq, Structural)]
pub enum TypeRead {
    /// This many more bytes are needed.
    More(usize),
    /// The type.
    Type(u64),
}

/// Reads the type a unidirectional stream starts with, from what has arrived.
pub fn read_stream_type(bytes: &[u8]) -> (read: TypeRead)
    ensures
        read == if bytes@.len() == 0 {
            TypeRead::More(1)
        } else if bytes@.len() < varint_width(bytes@[0]) {
            TypeRead::More((varint_width(bytes@[0]) - bytes@.len()) as usize)
        } else {
            TypeRead::Type((varint_prefix(bytes@)->0).0)
        },
{
    if bytes.len() == 0 {
        return TypeRead::More(1);
    }
    let first: u8 = bytes[0];
    let length: usize = if first < 0x40 {
        1
    } else if first < 0x80 {
        2
    } else if first < 0xc0 {
        4
    } else {
        8
    };
    match peek_varint(bytes) {
        Some((value, _)) => TypeRead::Type(value),
        None => TypeRead::More(length - bytes.len()),
    }
}

/// The two QPACK streams of a peer.
#[derive(Debug, Clone, Copy, PartialEq, Eq, Structural)]
pub enum QpackStream {
    /// The stream its encoder's instructions arrive on.
    Encoder,
    /// The stream its decoder's instructions arrive on.
    Decoder,
}

impl QpackStream {
    /// The code a fault on the stream is answered with.
    pub open spec fn error_code(self) -> Code {
        match self {
            QpackStream::Encoder => Code::QPACK_ENCODER_STREAM_ERROR,
            QpackStream::Decoder => Code::QPACK_DECODER_STREAM_ERROR,
        }
    }

    /// What the stream is called.
    pub open spec fn called(self) -> Seq<char> {
        match self {
            QpackStream::Encoder => "encoder"@,
            QpackStream::Decoder => "decoder"@,
        }
    }

    /// Marks the stream as opened; whether it had been before.
    fn seen(self, shared: &mut Shared) -> (before: bool)
        ensures
            before == match self {
                QpackStream::Encoder => old(shared)@.encoder_seen,
                QpackStream::Decoder => old(shared)@.decoder_seen,
            },
            final(shared)@ == match self {
                QpackStream::Encoder => SharedView { encoder_seen: true, ..old(shared)@ },
                QpackStream::Decoder => SharedView { decoder_seen: true, ..old(shared)@ },
            },
    {
        match self {
            QpackStream::Encoder => {
                let before: bool = shared.encoder_seen;
                shared.encoder_seen = true;
                before
            },
            QpackStream::Decoder => {
                let before: bool = shared.decoder_seen;
                shared.decoder_seen = true;
                before
            },
        }
    }

    /// The code a fault on the stream is answered with.
    pub fn code(self) -> (code: Code)
        ensures
            code == self.error_code(),
    {
        match self {
            QpackStream::Encoder => Code::QPACK_ENCODER_STREAM_ERROR,
            QpackStream::Decoder => Code::QPACK_DECODER_STREAM_ERROR,
        }
    }

    /// What the stream is called.
    pub fn name(self) -> (name: &'static str)
        ensures
            name@ == self.called(),
    {
        match self {
            QpackStream::Encoder => "encoder",
            QpackStream::Decoder => "decoder",
        }
    }
}

/// A second stream of a kind that there may be only one of.
fn duplicate(detail: &str) -> (violation: Violation)
    ensures
        violation@ == Fault::connection(Code::H3_STREAM_CREATION_ERROR, detail@),
{
    Violation::connection(Code::H3_STREAM_CREATION_ERROR, detail)
}

/// A frame where it is not allowed.
fn unexpected(detail: &str) -> (violation: Violation)
    ensures
        violation@ == Fault::connection(Code::H3_FRAME_UNEXPECTED, detail@),
{
    Violation::connection(Code::H3_FRAME_UNEXPECTED, detail)
}

/// The fault of a control stream that starts with anything but SETTINGS.
pub open spec fn missing_settings_fault() -> Fault {
    Fault::connection(
        Code::H3_MISSING_SETTINGS,
        "the control stream did not begin with SETTINGS"@,
    )
}

fn missing_settings() -> (violation: Violation)
    ensures
        violation@ == missing_settings_fault(),
{
    Violation::connection(
        Code::H3_MISSING_SETTINGS,
        "the control stream did not begin with SETTINGS",
    )
}

/// How waiting for the type of a unidirectional stream ended.
#[derive(Debug, Clone, Copy, PartialEq, Eq, Structural)]
pub enum Typed {
    /// The type arrived.
    Type(u64),
    /// The stream ended or failed before it did.
    Ended,
    /// It did not arrive in time.
    Expired,
}

/// What to do with a unidirectional stream of the peer.
#[derive(Debug)]
pub enum StreamRole {
    /// Nothing.
    Ignore,
    /// Ask the peer to stop sending, with this code.
    Stop(u64),
    /// Close the connection.
    Close(Close),
    /// Serve it as the control stream.
    Control,
    /// Serve it as a QPACK stream.
    Qpack(QpackStream),
}

/// What opening a stream of `stream_type` is at fault for, if it is.
pub open spec fn opening_fault(shared: SharedView, stream_type: u64) -> Option<Fault> {
    if stream_type == STREAM_CONTROL && shared.control_seen {
        Some(Fault::connection(Code::H3_STREAM_CREATION_ERROR, "a second control stream"@))
    } else if stream_type == STREAM_PUSH {
        Some(Fault::connection(Code::H3_STREAM_CREATION_ERROR, "a client opened a push stream"@))
    } else if (stream_type == STREAM_QPACK_ENCODER && shared.encoder_seen) || (stream_type
        == STREAM_QPACK_DECODER && shared.decoder_seen) {
        Some(
            Fault::connection(
                Code::H3_STREAM_CREATION_ERROR,
                "a second QPACK stream of the same kind"@,
            ),
        )
    } else {
        None
    }
}

/// Once a stream of `stream_type` has been opened.
pub open spec fn opened(shared: SharedView, stream_type: u64) -> SharedView {
    if stream_type == STREAM_CONTROL {
        SharedView { control_seen: true, ..shared }
    } else if stream_type == STREAM_QPACK_ENCODER {
        SharedView { encoder_seen: true, ..shared }
    } else if stream_type == STREAM_QPACK_DECODER {
        SharedView { decoder_seen: true, ..shared }
    } else {
        shared
    }
}

/// What a stream of a type that may be opened is served as.
pub open spec fn role_of(stream_type: u64) -> StreamRole {
    if stream_type == STREAM_CONTROL {
        StreamRole::Control
    } else if stream_type == STREAM_QPACK_ENCODER {
        StreamRole::Qpack(QpackStream::Encoder)
    } else if stream_type == STREAM_QPACK_DECODER {
        StreamRole::Qpack(QpackStream::Decoder)
    } else {
        StreamRole::Stop(Code::H3_STREAM_CREATION_ERROR.number())
    }
}

/// Decides what a unidirectional stream of the peer is, once its type is known
/// or has failed to arrive.
///
/// A stream of an unknown type is aborted rather than refused: unknown types are
/// how the protocol is extended.
pub fn serve_stream(shared: &mut Shared, typed: Typed) -> (role: StreamRole)
    ensures
        typed matches Typed::Type(stream_type) ==> opening_fault(old(shared)@, stream_type) is None
            ==> role == role_of(stream_type),
        match typed {
            Typed::Ended => role is Ignore && final(shared)@ == old(shared)@,
            Typed::Expired => role == StreamRole::Stop(Code::H3_STREAM_CREATION_ERROR.number())
                && final(shared)@ == old(shared)@,
            Typed::Type(stream_type) => match opening_fault(old(shared)@, stream_type) {
                Some(fault) => {
                    &&& final(shared)@ == opened(old(shared)@, stream_type).recording(fault)
                    &&& role matches StreamRole::Close(close) && close.is_over(
                        old(shared)@.first_fault(fault),
                    )
                },
                None => {
                    &&& final(shared)@ == opened(old(shared)@, stream_type)
                    &&& role == if stream_type == STREAM_CONTROL {
                        StreamRole::Control
                    } else if stream_type == STREAM_QPACK_ENCODER {
                        StreamRole::Qpack(QpackStream::Encoder)
                    } else if stream_type == STREAM_QPACK_DECODER {
                        StreamRole::Qpack(QpackStream::Decoder)
                    } else {
                        StreamRole::Stop(Code::H3_STREAM_CREATION_ERROR.number())
                    }
                },
            },
        },
{
    let stream_type: u64 = match typed {
        Typed::Ended => {
            return StreamRole::Ignore;
        },
        Typed::Expired => {
            return StreamRole::Stop(varint(Code::H3_STREAM_CREATION_ERROR));
        },
        Typed::Type(stream_type) => stream_type,
    };
    match stream_type {
        STREAM_CONTROL => {
            let before: bool = shared.control_seen;
            shared.control_seen = true;
            if before {
                StreamRole::Close(shared.fail(duplicate("a second control stream")))
            } else {
                StreamRole::Control
            }
        },
        STREAM_PUSH => StreamRole::Close(
            shared.fail(
                Violation::connection(
                    Code::H3_STREAM_CREATION_ERROR,
                    "a client opened a push stream",
                ),
            ),
        ),
        STREAM_QPACK_ENCODER => if QpackStream::Encoder.seen(shared) {
            StreamRole::Close(shared.fail(duplicate("a second QPACK stream of the same kind")))
        } else {
            StreamRole::Qpack(QpackStream::Encoder)
        },
        STREAM_QPACK_DECODER => if QpackStream::Decoder.seen(shared) {
            StreamRole::Close(shared.fail(duplicate("a second QPACK stream of the same kind")))
        } else {
            StreamRole::Qpack(QpackStream::Decoder)
        },
        _ => StreamRole::Stop(varint(Code::H3_STREAM_CREATION_ERROR)),
    }
}

/// What to do once something has happened on a critical stream of the peer.
#[derive(Debug)]
pub enum Watch {
    /// Keep reading it; this many skipped frames are worth a line in the log.
    Continue(Option<u64>),
    /// Nothing more: the connection is over.
    Stop,
    /// Close the connection.
    Close(Close),
}

// ---------------------------------------------------------------------------
// The peer's control stream
// ---------------------------------------------------------------------------

/// What the peer's control stream has said so far.
pub struct ControlView {
    /// Whether SETTINGS has arrived.
    pub settings: bool,
    /// The identifier of the peer's last GOAWAY.
    pub goaway: Option<u64>,
    /// The peer's last MAX_PUSH_ID.
    pub max_push_id: Option<u64>,
    /// How many frames of unknown types have been skipped.
    pub skipped: u64,
}

impl ControlView {
    /// A control stream that has said nothing.
    pub open spec fn silent() -> ControlView {
        ControlView { settings: false, goaway: None, max_push_id: None, skipped: 0 }
    }

    /// Once an item has arrived, or what is wrong with it.
    pub open spec fn hearing(self, item: ItemView) -> Result<ControlView, Fault> {
        if !self.settings {
            if item matches ItemView::Frame(FrameView::Settings(_)) {
                Ok(ControlView { settings: true, ..self })
            } else {
                Err(missing_settings_fault())
            }
        } else {
            match item {
                ItemView::Data(_) => Err(
                    Fault::connection(
                        Code::H3_FRAME_UNEXPECTED,
                        "a DATA frame on the control stream"@,
                    ),
                ),
                ItemView::Skipped { kind: _ } => Ok(
                    ControlView { skipped: counted(self.skipped), ..self },
                ),
                ItemView::Frame(frame) => match frame {
                    FrameView::Settings(_) => Err(
                        Fault::connection(Code::H3_FRAME_UNEXPECTED, "a second SETTINGS frame"@),
                    ),
                    FrameView::Goaway(identifier) => if self.goaway matches Some(previous)
                        && identifier > previous {
                        Err(
                            Fault::connection(
                                Code::H3_ID_ERROR,
                                "a GOAWAY identifier that grew to "@ + decimal_text(
                                    identifier as nat,
                                ),
                            ),
                        )
                    } else {
                        Ok(ControlView { goaway: Some(identifier), ..self })
                    },
                    FrameView::CancelPush(push_id) => Err(
                        Fault::connection(
                            Code::H3_ID_ERROR,
                            "a CANCEL_PUSH for push ID "@ + decimal_text(push_id as nat)
                                + ", which was never promised"@,
                        ),
                    ),
                    FrameView::MaxPushId(push_id) => if self.max_push_id matches Some(previous)
                        && push_id < previous {
                        Err(
                            Fault::connection(
                                Code::H3_ID_ERROR,
                                "a MAX_PUSH_ID that shrank to "@ + decimal_text(push_id as nat),
                            ),
                        )
                    } else {
                        Ok(ControlView { max_push_id: Some(push_id), ..self })
                    },
                    FrameView::PushPromise => Err(
                        Fault::connection(Code::H3_FRAME_UNEXPECTED, "a PUSH_PROMISE frame"@),
                    ),
                    FrameView::Headers(_) => Err(
                        Fault::connection(
                            Code::H3_FRAME_UNEXPECTED,
                            "a HEADERS frame on the control stream"@,
                        ),
                    ),
                },
            }
        }
    }
}

/// What is shared once an item has arrived on the control stream: the first
/// SETTINGS may turn datagrams on.
pub open spec fn settled(shared: SharedView, control: ControlView, item: ItemView) -> SharedView {
    match item {
        ItemView::Frame(FrameView::Settings(settings)) => if !control.settings
            && settings.datagrams {
            SharedView { peer_datagrams: true, ..shared }
        } else {
            shared
        },
        _ => shared,
    }
}

/// What the peer's control stream has said so far.
#[derive(Debug)]
pub struct Control {
    settings: bool,
    goaway: Option<u64>,
    max_push_id: Option<u64>,
    skipped: Sampler,
}

impl View for Control {
    type V = ControlView;

    closed spec fn view(&self) -> ControlView {
        ControlView {
            settings: self.settings,
            goaway: self.goaway,
            max_push_id: self.max_push_id,
            skipped: self.skipped.recorded(),
        }
    }
}

impl Default for Control {
    fn default() -> (control: Control)
        ensures
            control@ == ControlView::silent(),
    {
        Control { settings: false, goaway: None, max_push_id: None, skipped: Sampler::new() }
    }
}

fn with_number(before: &str, number: u64, after: &str) -> (text: String)
    ensures
        text@ == before@ + decimal_text(number as nat) + after@,
{
    let mut text = before.to_owned();
    let digits = decimal(number);
    text.append(digits.as_str());
    text.append(after);
    text
}

impl Control {
    /// How many frames of unknown types have been skipped.
    pub fn skipped(&self) -> (count: u64)
        ensures
            count == self@.skipped,
    {
        self.skipped.seen()
    }

    /// Takes the next item of the control stream, or says what is wrong with it.
    ///
    /// The result is how many frames of unknown types have been skipped, where
    /// that is worth a line in the log.
    pub fn accept(&mut self, item: Item, shared: &mut Shared) -> (result: Result<
        Option<u64>,
        Violation,
    >)
        ensures
            final(shared)@ == settled(old(shared)@, old(self)@, item@),
            match (result, old(self)@.hearing(item@)) {
                (Ok(report), Ok(expected)) => final(self)@ == expected && report == if item@
                    is Skipped {
                    sampled(expected.skipped)
                } else {
                    None
                },
                (Err(violation), Err(fault)) => violation@ == fault && final(self)@ == old(self)@,
                _ => false,
            },
    {
        let frame: Frame = match item {
            Item::Frame(frame) => frame,
            Item::Data(_) => {
                return if self.settings {
                    Err(unexpected("a DATA frame on the control stream"))
                } else {
                    Err(missing_settings())
                };
            },
            Item::Skipped { kind: _ } => {
                if !self.settings {
                    return Err(missing_settings());
                }
                return Ok(self.skipped.record());
            },
        };
        if !self.settings {
            return match frame {
                Frame::Settings(settings) => {
                    self.settings = true;
                    if settings.datagrams {
                        shared.peer_datagrams = true;
                    }
                    Ok(None)
                },
                _ => Err(missing_settings()),
            };
        }
        match frame {
            Frame::Settings(_) => Err(unexpected("a second SETTINGS frame")),
            Frame::Goaway(identifier) => {
                if let Some(previous) = self.goaway {
                    if identifier > previous {
                        let detail = with_number("a GOAWAY identifier that grew to ", identifier, "");
                        proof {
                            reveal_strlit("");
                            assert(detail@ =~= "a GOAWAY identifier that grew to "@ + decimal_text(
                                identifier as nat,
                            ));
                        }
                        return Err(Violation::connection(Code::H3_ID_ERROR, detail.as_str()));
                    }
                }
                self.goaway = Some(identifier);
                Ok(None)
            },
            Frame::CancelPush(push_id) => {
                let detail = with_number(
                    "a CANCEL_PUSH for push ID ",
                    push_id,
                    ", which was never promised",
                );
                Err(Violation::connection(Code::H3_ID_ERROR, detail.as_str()))
            },
            Frame::MaxPushId(push_id) => {
                if let Some(previous) = self.max_push_id {
                    if push_id < previous {
                        let detail = with_number("a MAX_PUSH_ID that shrank to ", push_id, "");
                        proof {
                            reveal_strlit("");
                            assert(detail@ =~= "a MAX_PUSH_ID that shrank to "@ + decimal_text(
                                push_id as nat,
                            ));
                        }
                        return Err(Violation::connection(Code::H3_ID_ERROR, detail.as_str()));
                    }
                }
                self.max_push_id = Some(push_id);
                Ok(None)
            },
            Frame::PushPromise => Err(unexpected("a PUSH_PROMISE frame")),
            Frame::Headers(_) => Err(unexpected("a HEADERS frame on the control stream")),
        }
    }
}

/// The fault of a control stream that has ended: none where the connection is
/// over, since a peer saying goodbye ends its streams too.
pub fn control_stream_finished(closed: bool) -> (violation: Option<Violation>)
    ensures
        match violation {
            Some(violation) => !closed && violation@ == Fault::connection(
                Code::H3_CLOSED_CRITICAL_STREAM,
                "the peer closed its control stream"@,
            ),
            None => closed,
        },
{
    if closed {
        return None;
    }
    Some(
        Violation::connection(
            Code::H3_CLOSED_CRITICAL_STREAM,
            "the peer closed its control stream",
        ),
    )
}

/// The fault that what was read from the control stream comes to, if any.
pub open spec fn control_fault(
    control: ControlView,
    read: Result<Option<Item>, Error>,
    closed: bool,
) -> Option<Fault> {
    match read {
        Ok(Some(item)) => match control.hearing(item@) {
            Ok(_) => None,
            Err(fault) => Some(fault),
        },
        Ok(None) => if closed {
            None
        } else {
            Some(
                Fault::connection(
                    Code::H3_CLOSED_CRITICAL_STREAM,
                    "the peer closed its control stream"@,
                ),
            )
        },
        Err(Error::Protocol(violation)) => Some(Fault { fatal: true, ..violation@ }),
        Err(Error::Stream(StreamError::Connection(_))) => None,
        Err(Error::Stream(error)) => Some(
            Fault::connection(
                Code::H3_CLOSED_CRITICAL_STREAM,
                "the peer reset its control stream: "@ + error.text(),
            ),
        ),
    }
}

/// Decides what to do with what was read from the peer's control stream.
///
/// `closed` tells whether the connection is over already. No fault here ends the
/// stream alone: closing the control stream is itself a fault of the connection.
pub fn serve_control(
    control: &mut Control,
    shared: &mut Shared,
    read: Result<Option<Item>, Error>,
    closed: bool,
) -> (watch: Watch)
    ensures
        ({
            let before = match read {
                Ok(Some(item)) => settled(old(shared)@, old(control)@, item@),
                _ => old(shared)@,
            };
            match control_fault(old(control)@, read, closed) {
                Some(fault) => {
                    &&& final(shared)@ == before.recording(fault)
                    &&& final(control)@ == old(control)@
                    &&& watch matches Watch::Close(close) && close.is_over(
                        before.first_fault(fault),
                    )
                },
                None => {
                    &&& final(shared)@ == before
                    &&& match read {
                        Ok(Some(item)) => final(control)@ == old(control)@.hearing(item@)->Ok_0
                            && watch == Watch::Continue(
                            if item@ is Skipped {
                                sampled(final(control)@.skipped)
                            } else {
                                None
                            },
                        ),
                        _ => final(control)@ == old(control)@ && watch is Stop,
                    }
                },
            }
        }),
{
    match read {
        Ok(Some(item)) => match control.accept(item, shared) {
            Ok(report) => Watch::Continue(report),
            Err(violation) => Watch::Close(shared.fail(violation)),
        },
        Ok(None) => match control_stream_finished(closed) {
            Some(violation) => Watch::Close(shared.fail(violation)),
            None => Watch::Stop,
        },
        Err(Error::Protocol(violation)) => Watch::Close(shared.fail(violation.into_fatal())),
        Err(Error::Stream(error)) => match error {
            StreamError::Connection(_) => Watch::Stop,
            other => {
                let mut detail = "the peer reset its control stream: ".to_owned();
                let what = other.to_string();
                detail.append(what.as_str());
                Watch::Close(
                    shared.fail(
                        Violation::connection(Code::H3_CLOSED_CRITICAL_STREAM, detail.as_str()),
                    ),
                )
            },
        },
    }
}

// ---------------------------------------------------------------------------
// The peer's QPACK streams
// ---------------------------------------------------------------------------

/// Whether an instruction goes on past its first byte, or what is wrong with it.
///
/// With no dynamic table an encoder has one instruction left, a capacity of
/// zero, and a decoder has one left, a cancelled stream.
pub open spec fn instruction(kind: QpackStream, first: u8) -> Result<bool, Fault> {
    match kind {
        QpackStream::Encoder => if first >= 0x80 {
            Err(
                Fault::connection(
                    kind.error_code(),
                    "an Insert with Name Reference with no dynamic table"@,
                ),
            )
        } else if first >= 0x40 {
            Err(
                Fault::connection(
                    kind.error_code(),
                    "an Insert with Literal Name with no dynamic table"@,
                ),
            )
        } else if first > 0x20 {
            Err(
                Fault::connection(
                    kind.error_code(),
                    "a dynamic table capacity above the zero this server allows"@,
                ),
            )
        } else if first == 0x20 {
            Ok(false)
        } else {
            Err(Fault::connection(kind.error_code(), "a Duplicate with no dynamic table"@))
        },
        QpackStream::Decoder => if first >= 0x80 {
            Err(
                Fault::connection(
                    kind.error_code(),
                    "a Section Acknowledgment for a field section that needed none"@,
                ),
            )
        } else if first >= 0x40 {
            Ok(first == 0x7f)
        } else {
            Err(
                Fault::connection(
                    kind.error_code(),
                    "an Insert Count Increment when nothing was inserted"@,
                ),
            )
        },
    }
}

/// Judges the first byte of an instruction: whether it goes on.
pub fn qpack_instruction(kind: QpackStream, first: u8) -> (result: Result<bool, Violation>)
    ensures
        match (result, instruction(kind, first)) {
            (Ok(more), Ok(expected)) => more == expected,
            (Err(violation), Err(fault)) => violation@ == fault,
            _ => false,
        },
{
    match kind {
        QpackStream::Encoder => if first >= 0x80 {
            Err(
                Violation::connection(
                    kind.code(),
                    "an Insert with Name Reference with no dynamic table",
                ),
            )
        } else if first >= 0x40 {
            Err(
                Violation::connection(
                    kind.code(),
                    "an Insert with Literal Name with no dynamic table",
                ),
            )
        } else if first > 0x20 {
            Err(
                Violation::connection(
                    kind.code(),
                    "a dynamic table capacity above the zero this server allows",
                ),
            )
        } else if first == 0x20 {
            Ok(false)
        } else {
            Err(Violation::connection(kind.code(), "a Duplicate with no dynamic table"))
        },
        QpackStream::Decoder => if first >= 0x80 {
            Err(
                Violation::connection(
                    kind.code(),
                    "a Section Acknowledgment for a field section that needed none",
                ),
            )
        } else if first >= 0x40 {
            Ok(first == 0x7f)
        } else {
            Err(
                Violation::connection(
                    kind.code(),
                    "an Insert Count Increment when nothing was inserted",
                ),
            )
        },
    }
}

/// How far through an instruction a QPACK stream is: all that has to survive
/// from one chunk to the next.
#[derive(Debug, Clone, Copy, PartialEq, Eq, Structural)]
pub struct QpackProgress {
    /// Whether an integer is still running.
    pub continuing: bool,
    /// How many bytes have continued it.
    pub continuation: usize,
}

impl Default for QpackProgress {
    fn default() -> (progress: QpackProgress)
        ensures
            progress == (QpackProgress { continuing: false, continuation: 0 }),
    {
        QpackProgress { continuing: false, continuation: 0 }
    }
}

impl QpackProgress {
    /// An integer has not run longer than it may.
    pub open spec fn well_formed(self) -> bool {
        self.continuation <= MAX_INTEGER_CONTINUATION
    }

    /// Once one more byte has arrived, or what is wrong with it.
    pub open spec fn taking(self, kind: QpackStream, byte: u8) -> Result<QpackProgress, Fault> {
        if self.continuing {
            if self.continuation >= MAX_INTEGER_CONTINUATION {
                Err(Fault::connection(kind.error_code(), "an integer past 62 bits"@))
            } else {
                Ok(
                    QpackProgress {
                        continuing: byte >= 0x80,
                        continuation: (self.continuation + 1) as usize,
                    },
                )
            }
        } else {
            match instruction(kind, byte) {
                Ok(more) => Ok(QpackProgress { continuing: more, continuation: 0 }),
                Err(fault) => Err(fault),
            }
        }
    }

    /// Once all these bytes have arrived, or the first thing wrong with them.
    pub open spec fn taking_all(self, kind: QpackStream, bytes: Seq<u8>) -> Result<
        QpackProgress,
        Fault,
    >
        decreases bytes.len(),
    {
        if bytes.len() == 0 {
            Ok(self)
        } else {
            match self.taking(kind, bytes[0]) {
                Ok(next) => next.taking_all(kind, bytes.drop_first()),
                Err(fault) => Err(fault),
            }
        }
    }

    /// Takes one byte of the stream.
    pub fn take(&mut self, kind: QpackStream, byte: u8) -> (result: Result<(), Violation>)
        requires
            old(self).well_formed(),
        ensures
            final(self).well_formed(),
            match (result, old(self).taking(kind, byte)) {
                (Ok(()), Ok(expected)) => *final(self) == expected,
                (Err(violation), Err(fault)) => violation@ == fault && *final(self) == *old(self),
                _ => false,
            },
    {
        if self.continuing {
            if self.continuation >= MAX_INTEGER_CONTINUATION {
                return Err(Violation::connection(kind.code(), "an integer past 62 bits"));
            }
            *self = QpackProgress {
                continuing: byte >= 0x80,
                continuation: self.continuation + 1,
            };
            return Ok(());
        }
        match qpack_instruction(kind, byte) {
            Ok(more) => {
                *self = QpackProgress { continuing: more, continuation: 0 };
                Ok(())
            },
            Err(violation) => Err(violation),
        }
    }

    /// Takes a chunk of the stream.
    pub fn take_all(&mut self, kind: QpackStream, chunk: &[u8]) -> (result: Result<(), Violation>)
        requires
            old(self).well_formed(),
        ensures
            final(self).well_formed(),
            match (result, old(self).taking_all(kind, chunk@)) {
                (Ok(()), Ok(expected)) => *final(self) == expected,
                (Err(violation), Err(fault)) => violation@ == fault,
                _ => false,
            },
    {
        let mut at: usize = 0;
        assert(chunk@.subrange(0, chunk@.len() as int) =~= chunk@);
        while at < chunk.len()
            invariant
                at <= chunk.len(),
                self.well_formed(),
                old(self).taking_all(kind, chunk@) == self.taking_all(
                    kind,
                    chunk@.subrange(at as int, chunk@.len() as int),
                ),
            decreases chunk.len() - at,
        {
            let ghost left = chunk@.subrange(at as int, chunk@.len() as int);
            assert(left.drop_first() =~= chunk@.subrange(at + 1, chunk@.len() as int));
            match self.take(kind, chunk[at]) {
                Ok(()) => {},
                Err(violation) => {
                    return Err(violation);
                },
            }
            at = at + 1;
        }
        Ok(())
    }
}

/// Where a QPACK stream is cut into chunks makes no difference to how it is
/// judged.
pub proof fn qpack_cuts_make_no_difference(
    progress: QpackProgress,
    kind: QpackStream,
    first: Seq<u8>,
    second: Seq<u8>,
)
    ensures
        progress.taking_all(kind, first + second) == match progress.taking_all(kind, first) {
            Ok(next) => next.taking_all(kind, second),
            Err(fault) => Err(fault),
        },
    decreases first.len(),
{
    if first.len() == 0 {
        assert(first + second =~= second);
    } else {
        assert((first + second).drop_first() =~= first.drop_first() + second);
        match progress.taking(kind, first[0]) {
            Ok(next) => {
                qpack_cuts_make_no_difference(next, kind, first.drop_first(), second);
            },
            Err(_) => {},
        }
    }
}

/// What was read from a QPACK stream.
#[derive(Debug)]
pub enum QpackRead {
    /// A chunk of it.
    Chunk(Bytes),
    /// Its end.
    Ended,
    /// A failure.
    Failed(TransferError),
}

/// The fault of a QPACK stream that has ended: none where the connection is over.
pub fn qpack_stream_ended(detail: &str, closed: bool) -> (violation: Option<Violation>)
    ensures
        match violation {
            Some(violation) => !closed && violation@ == Fault::connection(
                Code::H3_CLOSED_CRITICAL_STREAM,
                detail@,
            ),
            None => closed,
        },
{
    if closed {
        return None;
    }
    Some(Violation::connection(Code::H3_CLOSED_CRITICAL_STREAM, detail))
}

/// The fault that what was read from a QPACK stream comes to, if any.
pub open spec fn qpack_fault(
    progress: QpackProgress,
    kind: QpackStream,
    read: QpackRead,
    closed: bool,
) -> Option<Fault> {
    match read {
        QpackRead::Chunk(chunk) => match progress.taking_all(kind, held(chunk)) {
            Ok(_) => None,
            Err(fault) => Some(fault),
        },
        QpackRead::Ended => if closed {
            None
        } else {
            Some(
                Fault::connection(
                    Code::H3_CLOSED_CRITICAL_STREAM,
                    "the peer closed its QPACK "@ + kind.called() + " stream"@,
                ),
            )
        },
        QpackRead::Failed(error) => if closed {
            None
        } else {
            Some(
                Fault::connection(
                    Code::H3_CLOSED_CRITICAL_STREAM,
                    "the peer reset its QPACK "@ + kind.called() + " stream: "@ + error.text(),
                ),
            )
        },
    }
}

/// Decides what to do with what was read from a QPACK stream of the peer.
pub fn serve_qpack(
    progress: &mut QpackProgress,
    shared: &mut Shared,
    kind: QpackStream,
    read: QpackRead,
    closed: bool,
) -> (watch: Watch)
    requires
        old(progress).well_formed(),
    ensures
        final(progress).well_formed(),
        match qpack_fault(*old(progress), kind, read, closed) {
            Some(fault) => {
                &&& final(shared)@ == old(shared)@.recording(fault)
                &&& watch matches Watch::Close(close) && close.is_over(
                    old(shared)@.first_fault(fault),
                )
            },
            None => {
                &&& final(shared)@ == old(shared)@
                &&& match read {
                    QpackRead::Chunk(chunk) => watch == Watch::Continue(None)
                        && *final(progress) == old(progress).taking_all(kind, held(chunk))->Ok_0,
                    _ => watch is Stop && *final(progress) == *old(progress),
                }
            },
        },
{
    match read {
        QpackRead::Chunk(chunk) => match progress.take_all(kind, bytes_slice(&chunk)) {
            Ok(()) => Watch::Continue(None),
            Err(violation) => Watch::Close(shared.fail(violation)),
        },
        QpackRead::Ended => {
            let mut detail = "the peer closed its QPACK ".to_owned();
            detail.append(kind.name());
            detail.append(" stream");
            match qpack_stream_ended(detail.as_str(), closed) {
                Some(violation) => Watch::Close(shared.fail(violation)),
                None => Watch::Stop,
            }
        },
        QpackRead::Failed(error) => {
            let mut detail = "the peer reset its QPACK ".to_owned();
            detail.append(kind.name());
            detail.append(" stream: ");
            let what = error.to_string();
            detail.append(what.as_str());
            match qpack_stream_ended(detail.as_str(), closed) {
                Some(violation) => Watch::Close(shared.fail(violation)),
                None => Watch::Stop,
            }
        },
    }
}

// ---------------------------------------------------------------------------
// Laws
// ---------------------------------------------------------------------------

/// Only the first violation is ever reported, however many follow it.
pub proof fn the_first_violation_is_kept(shared: SharedView, first: Fault, second: Fault)
    requires
        shared.local_error is None,
    ensures
        shared.recording(first).first_fault(second) == first,
        shared.recording(first).recording(second) == shared.recording(first),
{
}

/// A datagram reaches the session that claimed its Quarter Stream ID and no
/// other: every other queue stays as it is.
pub proof fn datagrams_reach_only_their_session(
    shared: SharedView,
    datagram: DatagramView,
    other: u64,
)
    requires
        other != datagram.quarter_stream_id,
    ensures
        shared.delivering(datagram).sessions.contains_key(other)
            == shared.sessions.contains_key(other),
        shared.sessions.contains_key(other) ==> shared.delivering(datagram).sessions[other]
            == shared.sessions[other],
{
}

/// What is delivered is received once, in order, behind what was waiting.
pub proof fn what_is_delivered_is_queued_last(shared: SharedView, datagram: DatagramView)
    requires
        shared.well_formed(),
        shared.obstacle(datagram) is None,
    ensures
        shared.delivering(datagram).sessions[datagram.quarter_stream_id]
            == shared.sessions[datagram.quarter_stream_id].push(datagram.payload),
        shared.delivering(datagram).well_formed(),
        shared.delivering(datagram).dropped == shared.dropped,
{
}

/// A datagram that is not delivered is dropped and counted, and leaves every
/// queue as it is.
pub proof fn what_is_not_delivered_is_counted(shared: SharedView, datagram: DatagramView)
    requires
        shared.obstacle(datagram) is Some,
    ensures
        shared.delivering(datagram).sessions == shared.sessions,
        shared.delivering(datagram).dropped == counted(shared.dropped),
{
}

/// A claim leaves nothing behind: once it is given up the table is what it was
/// before, and a datagram for it is dropped as one for no session.
pub proof fn claims_leave_nothing_behind(shared: SharedView, datagram: DatagramView)
    requires
        !shared.sessions.contains_key(datagram.quarter_stream_id),
        datagram.context_id == CONTEXT_ID_UDP_PAYLOAD,
    ensures
        shared.sessions.insert(datagram.quarter_stream_id, Seq::empty()).remove(
            datagram.quarter_stream_id,
        ) == shared.sessions,
        shared.obstacle(datagram) == Some(DropKind::Unroutable),
{
    assert(shared.sessions.insert(datagram.quarter_stream_id, Seq::empty()).remove(
        datagram.quarter_stream_id,
    ) =~= shared.sessions);
}

/// From one GOAWAY to the next the identifier never grows, and the last request
/// that was accepted always stays below it.
pub proof fn goaways_keep_their_promise(last_accepted: Option<u64>, going_away: Option<u64>)
    requires
        last_accepted matches Some(id) ==> id < VARINT_MAX,
        (last_accepted, going_away) matches (Some(id), Some(sent)) ==> id < sent,
    ensures
        going_away matches Some(sent) ==> promised(last_accepted, going_away) <= sent,
        last_accepted matches Some(id) ==> id < promised(last_accepted, going_away),
{
}

/// On an accepted control stream the peer's GOAWAY identifiers never grow and
/// its MAX_PUSH_IDs never shrink, and SETTINGS stays received.
pub proof fn the_control_stream_only_narrows(control: ControlView, item: ItemView)
    requires
        control.hearing(item) is Ok,
    ensures
        ({
            let next = control.hearing(item)->Ok_0;
            &&& next.settings
            &&& control.goaway matches Some(before) ==> next.goaway matches Some(now) && now
                <= before
            &&& control.max_push_id matches Some(before) ==> next.max_push_id matches Some(now)
                && now >= before
        }),
{
}

/// A control stream that starts with anything but SETTINGS is refused.
pub proof fn settings_come_first(item: ItemView)
    ensures
        ControlView::silent().hearing(item) is Ok <==> item matches ItemView::Frame(
            FrameView::Settings(_),
        ),
        ControlView::silent().hearing(item) matches Err(fault) ==> fault
            == missing_settings_fault(),
{
}

/// Every fault on a critical stream is one of the whole connection.
pub proof fn critical_faults_are_fatal(
    control: ControlView,
    progress: QpackProgress,
    kind: QpackStream,
    item: ItemView,
    bytes: Seq<u8>,
)
    ensures
        control.hearing(item) matches Err(fault) ==> fault.fatal,
        progress.taking_all(kind, bytes) matches Err(fault) ==> fault.fatal,
    decreases bytes.len(),
{
    if bytes.len() > 0 {
        match progress.taking(kind, bytes[0]) {
            Ok(next) => {
                critical_faults_are_fatal(control, next, kind, item, bytes.drop_first());
            },
            Err(_) => {},
        }
    }
}

/// What this server's control stream starts with reads back: the type of a
/// control stream, then SETTINGS with datagrams turned on.
pub proof fn our_preface_reads_back(decoder: DecoderView, held: nat)
    requires
        decoder.well_formed(),
        at_boundary(decoder),
        decoder.stream is Control,
        decoder.chunk == control_preface_bytes().subrange(
            1,
            control_preface_bytes().len() as int,
        ),
        held + 96 <= HEADERS_BUFFER_BUDGET,
    ensures
        varint_prefix(control_preface_bytes()) == Some((STREAM_CONTROL, 1nat)),
        next_step(decoder, held).outcome == Ok::<Option<ItemView>, Fault>(
            Some(ItemView::Frame(FrameView::Settings(Settings { datagrams: true }))),
        ),
        next_step(decoder, held).decoder.chunk.len() == 0,
        next_step(decoder, held).held == held,
{
    let settings = pairs_bytes(advertised());
    let header = header_bytes(SETTINGS, settings.len() as u64);
    let preface = control_preface_bytes();
    varint_round_trip(STREAM_CONTROL, header + settings);
    assert(preface =~= varint_bytes(STREAM_CONTROL) + (header + settings));
    lemma_pairs_len(advertised());
    assert(decoder.chunk =~= header + settings + Seq::<u8>::empty());
    own_settings_parse();
    a_whole_frame_comes_out(decoder, held, SETTINGS, settings, Seq::empty());
}

proof fn lemma_pairs_len(pairs: Seq<(u64, u64)>)
    requires
        forall|i: int|
            0 <= i < pairs.len() ==> (#[trigger] pairs[i]).0 <= VARINT_MAX && pairs[i].1
                <= VARINT_MAX,
    ensures
        pairs_bytes(pairs).len() <= 16 * pairs.len(),
    decreases pairs.len(),
{
    if pairs.len() > 0 {
        let last = pairs.last();
        assert(pairs[pairs.len() - 1] == last);
        varint_round_trip(last.0, Seq::empty());
        varint_round_trip(last.1, Seq::empty());
        let shorter = pairs.drop_last();
        assert forall|i: int| 0 <= i < shorter.len() implies (#[trigger] shorter[i]).0
            <= VARINT_MAX && shorter[i].1 <= VARINT_MAX by {
            assert(shorter[i] == pairs[i]);
        }
        lemma_pairs_len(shorter);
    }
}

/// A GOAWAY that this server sends reads back as its identifier, whatever follows
/// it.
pub proof fn our_goaway_reads_back(
    decoder: DecoderView,
    held: nat,
    identifier: u64,
    rest: Seq<u8>,
)
    requires
        decoder.well_formed(),
        at_boundary(decoder),
        decoder.stream is Control,
        identifier <= VARINT_MAX,
        decoder.chunk == goaway_bytes(identifier) + rest,
        held + 8 <= HEADERS_BUFFER_BUDGET,
    ensures
        next_step(decoder, held).outcome == Ok::<Option<ItemView>, Fault>(
            Some(ItemView::Frame(FrameView::Goaway(identifier))),
        ),
        next_step(decoder, held).decoder.chunk == rest,
        next_step(decoder, held).held == held,
{
    let payload = varint_bytes(identifier);
    varint_round_trip(identifier, Seq::empty());
    assert(payload + Seq::<u8>::empty() =~= payload);
    a_whole_frame_comes_out(decoder, held, GOAWAY, payload, rest);
}

} // verus!
