//! The HTTP/3 frame layer (RFC 9114 section 7).
//!
//! Every HTTP/3 stream carries frames of one shape: a type and a length, both
//! variable-length integers, and a payload of that length. DATA payload is
//! handed out in the chunks it arrived in and never buffered. A frame of an
//! unknown type is skipped by its length, without being buffered either. Every
//! other frame has to be seen whole, so its announced length is bounded, and is
//! charged to the connection's [`BufferBudget`] until the frame completes.
//!
//! A frame's type is judged before its length, by the stream it arrived on.

use bytes::{Bytes, BytesMut};
use vstd::prelude::*;
use vstd::string::StringExecFns;

use crate::buf::{
    bytes_advance, bytes_mut_extend, bytes_mut_freeze, bytes_mut_new, bytes_mut_split, bytes_new,
    bytes_slice, bytes_split_to, has_room, held, written,
};
use crate::datagram::{
    VARINT_MAX, peek_varint, put_varint, varint_bytes, varint_prefix, varint_size,
};
use crate::h3::error::{Code, Fault, StreamError, Violation};
use crate::h3::{HEADERS_BUFFER_BUDGET, MAX_FIELD_SECTION_SIZE};
use crate::text::{decimal, decimal_text, hex, hex_text};

verus! {

/// DATA (RFC 9114 section 7.2.1).
pub const DATA: u64 = 0x00;

/// HEADERS (RFC 9114 section 7.2.2).
pub const HEADERS: u64 = 0x01;

/// CANCEL_PUSH (RFC 9114 section 7.2.3).
pub const CANCEL_PUSH: u64 = 0x03;

/// SETTINGS (RFC 9114 section 7.2.4).
pub const SETTINGS: u64 = 0x04;

/// PUSH_PROMISE (RFC 9114 section 7.2.5).
pub const PUSH_PROMISE: u64 = 0x05;

/// GOAWAY (RFC 9114 section 7.2.6).
pub const GOAWAY: u64 = 0x07;

/// MAX_PUSH_ID (RFC 9114 section 7.2.7).
pub const MAX_PUSH_ID: u64 = 0x0d;

/// `SETTINGS_QPACK_MAX_TABLE_CAPACITY` (RFC 9204 section 5).
pub const SETTING_QPACK_MAX_TABLE_CAPACITY: u64 = 0x01;

/// `SETTINGS_MAX_FIELD_SECTION_SIZE` (RFC 9114 section 7.2.4.1).
pub const SETTING_MAX_FIELD_SECTION_SIZE: u64 = 0x06;

/// `SETTINGS_QPACK_BLOCKED_STREAMS` (RFC 9204 section 5).
pub const SETTING_QPACK_BLOCKED_STREAMS: u64 = 0x07;

/// `SETTINGS_ENABLE_CONNECT_PROTOCOL` (RFC 9220 section 3).
pub const SETTING_ENABLE_CONNECT_PROTOCOL: u64 = 0x08;

/// `SETTINGS_H3_DATAGRAM` (RFC 9297 section 2.1.1).
pub const SETTING_H3_DATAGRAM: u64 = 0x33;

/// A reserved identifier, sent so that peers keep ignoring unknown ones.
pub const SETTING_GREASE: u64 = 0x119;

/// The largest payload that is buffered for one frame.
pub const MAX_BUFFERED_FRAME: u64 = MAX_FIELD_SECTION_SIZE;

/// The longest frame header there can be: two variable-length integers.
pub const MAX_FRAME_HEADER: usize = 16;

/// The frame types that HTTP/2 used and HTTP/3 reserves (RFC 9114 section
/// 11.2.1).
pub const RESERVED_HTTP2_TYPES: [u64; 4] = [0x02, 0x06, 0x08, 0x09];

/// The setting identifiers that HTTP/2 used and HTTP/3 reserves (RFC 9114 section
/// 11.2.2).
pub const RESERVED_HTTP2_SETTINGS: [u64; 5] = [0x00, 0x02, 0x03, 0x04, 0x05];

/// Whether a frame type is one that HTTP/2 used and HTTP/3 reserves.
pub open spec fn reserved_type(kind: u64) -> bool {
    RESERVED_HTTP2_TYPES@.contains(kind)
}

/// The frame types that have to be seen whole.
pub open spec fn buffered_type(kind: u64) -> bool {
    kind == HEADERS || kind == SETTINGS || kind == GOAWAY || kind == CANCEL_PUSH || kind
        == MAX_PUSH_ID || kind == PUSH_PROMISE
}

/// Whether a setting identifier is one that HTTP/2 used and HTTP/3 reserves.
pub open spec fn reserved_setting(identifier: u64) -> bool {
    RESERVED_HTTP2_SETTINGS@.contains(identifier)
}

/// Whether one of `reserved` is `value`.
fn is_reserved(reserved: &[u64], value: u64) -> (result: bool)
    ensures
        result <==> reserved@.contains(value),
{
    let mut at: usize = 0;
    while at < reserved.len()
        invariant
            at <= reserved.len(),
            forall|i: int| 0 <= i < at ==> #[trigger] reserved@[i] != value,
        decreases reserved.len() - at,
    {
        if reserved[at] == value {
            return true;
        }
        at = at + 1;
    }
    false
}

/// Whether `result` is the success or the fault that `expected` names.
pub open spec fn agrees<T: View>(
    result: Result<T, Violation>,
    expected: Result<T::V, Fault>,
) -> bool {
    match (result, expected) {
        (Ok(value), Ok(view)) => value@ == view,
        (Err(violation), Err(fault)) => violation@ == fault,
        _ => false,
    }
}

// ---------------------------------------------------------------------------
// The buffering budget
// ---------------------------------------------------------------------------

/// What a charge past the budget is refused with.
pub open spec fn past_budget(bytes: nat, held: nat) -> Fault {
    Fault::field_section_too_large(
        "buffering another "@ + decimal_text(bytes)
            + " bytes would put this connection past the "@ + decimal_text(
            HEADERS_BUFFER_BUDGET as nat,
        ) + " it may hold in unfinished frames, of which "@ + decimal_text(held)
            + " are already held"@,
    )
}

/// What one connection holds in unfinished frames, over all its streams.
///
/// A share is charged when a decoder commits to buffering a frame and released
/// when that frame completes or its decoder is given up.
#[derive(Debug)]
pub struct BufferBudget {
    held: usize,
}

impl Default for BufferBudget {
    fn default() -> (budget: BufferBudget)
        ensures
            budget@ == 0,
    {
        BufferBudget { held: 0 }
    }
}

impl View for BufferBudget {
    type V = nat;

    closed spec fn view(&self) -> nat {
        self.held as nat
    }
}

impl BufferBudget {
    /// A budget of its own, for a stream that shares one with nothing.
    pub fn unshared() -> (budget: BufferBudget)
        ensures
            budget@ == 0,
    {
        BufferBudget { held: 0 }
    }

    /// Takes `bytes` from the budget, or reports that the connection would be
    /// past it; a refused charge leaves the budget untouched.
    pub fn charge(&mut self, bytes: usize) -> (result: Result<(), Violation>)
        ensures
            result is Ok <==> old(self)@ + bytes <= HEADERS_BUFFER_BUDGET,
            result is Ok ==> final(self)@ == old(self)@ + bytes,
            result matches Err(violation) ==> violation@ == past_budget(bytes as nat, old(self)@)
                && final(self)@ == old(self)@,
    {
        let wanted: usize = self.held.saturating_add(bytes);
        if wanted <= HEADERS_BUFFER_BUDGET {
            self.held = wanted;
            return Ok(());
        }
        let mut detail = "buffering another ".to_owned();
        let more = decimal(bytes as u64);
        detail.append(more.as_str());
        detail.append(" bytes would put this connection past the ");
        let limit = decimal(HEADERS_BUFFER_BUDGET as u64);
        detail.append(limit.as_str());
        detail.append(" it may hold in unfinished frames, of which ");
        let already = decimal(self.held as u64);
        detail.append(already.as_str());
        detail.append(" are already held");
        Err(Violation::field_section_too_large(detail.as_str()))
    }

    /// Gives `bytes` back to the budget, which never goes below zero.
    pub fn release(&mut self, bytes: usize)
        ensures
            final(self)@ == released(old(self)@, bytes as nat),
    {
        self.held = self.held.saturating_sub(bytes);
    }

    /// Bytes currently charged.
    pub fn held(&self) -> (bytes: usize)
        ensures
            bytes == self@,
    {
        self.held
    }
}

/// What is held once `bytes` have been given back.
pub open spec fn released(held: nat, bytes: nat) -> nat {
    if held >= bytes {
        (held - bytes) as nat
    } else {
        0
    }
}

// ---------------------------------------------------------------------------
// Frames
// ---------------------------------------------------------------------------

/// Why the frame reader stopped.
#[derive(Debug)]
pub enum Error {
    /// The QUIC stream failed under the reader.
    Stream(StreamError),
    /// The peer broke a rule of the frame layer.
    Protocol(Violation),
}

/// The peer's SETTINGS, reduced to what this server acts on.
#[derive(Debug, Clone, Copy, PartialEq, Eq, Structural)]
pub struct Settings {
    /// `SETTINGS_H3_DATAGRAM = 1`.
    pub datagrams: bool,
}

impl Default for Settings {
    fn default() -> (settings: Settings)
        ensures
            settings == (Settings { datagrams: false }),
    {
        Settings { datagrams: false }
    }
}

impl View for Settings {
    type V = Settings;

    open spec fn view(&self) -> Settings {
        *self
    }
}

/// A fully received frame other than DATA.
#[derive(Debug)]
pub enum Frame {
    /// An encoded field section.
    Headers(Bytes),
    /// The peer's settings.
    Settings(Settings),
    /// The identifier the peer will not serve past.
    Goaway(u64),
    /// A push that is not wanted.
    CancelPush(u64),
    /// The highest push the peer admits.
    MaxPushId(u64),
    /// A promised push, which a server must never receive.
    PushPromise,
}

/// What the frame decoder produces.
#[derive(Debug)]
pub enum Item {
    /// Payload of a DATA frame, in the chunk it arrived in. One frame may
    /// produce several of these; an empty frame produces exactly one.
    Data(Bytes),
    /// A complete frame of any other type this server acts on.
    Frame(Frame),
    /// A frame of an unknown type, skipped in full.
    Skipped {
        /// The frame type that was skipped.
        kind: u64,
    },
}

/// What a [`Frame`] carries.
pub enum FrameView {
    /// An encoded field section.
    Headers(Seq<u8>),
    /// The peer's settings.
    Settings(Settings),
    /// The identifier the peer will not serve past.
    Goaway(u64),
    /// A push that is not wanted.
    CancelPush(u64),
    /// The highest push the peer admits.
    MaxPushId(u64),
    /// A promised push.
    PushPromise,
}

/// What an [`Item`] carries.
pub enum ItemView {
    /// Payload of a DATA frame.
    Data(Seq<u8>),
    /// A complete frame of any other known type.
    Frame(FrameView),
    /// A frame of an unknown type.
    Skipped {
        /// Its type.
        kind: u64,
    },
}

impl View for Frame {
    type V = FrameView;

    open spec fn view(&self) -> FrameView {
        match *self {
            Frame::Headers(block) => FrameView::Headers(held(block)),
            Frame::Settings(settings) => FrameView::Settings(settings),
            Frame::Goaway(id) => FrameView::Goaway(id),
            Frame::CancelPush(id) => FrameView::CancelPush(id),
            Frame::MaxPushId(id) => FrameView::MaxPushId(id),
            Frame::PushPromise => FrameView::PushPromise,
        }
    }
}

impl View for Item {
    type V = ItemView;

    open spec fn view(&self) -> ItemView {
        match *self {
            Item::Data(data) => ItemView::Data(held(data)),
            Item::Frame(frame) => ItemView::Frame(frame@),
            Item::Skipped { kind } => ItemView::Skipped { kind },
        }
    }
}

/// Which of a connection's streams a decoder is reading.
#[derive(Debug, Clone, Copy, PartialEq, Eq, Structural)]
pub enum StreamKind {
    /// The peer's control stream.
    Control,
    /// A request stream whose request has not completed.
    Request,
    /// A request stream whose CONNECT has completed.
    Tunnel,
}

/// Where a decoder is in the frame sequence.
#[allow(inconsistent_fields)]
#[derive(Debug, Clone, Copy, PartialEq, Eq, Structural)]
pub enum State {
    /// Between frames, assembling a type and a length.
    Header,
    /// Inside a DATA frame.
    Data {
        /// Payload bytes not yet handed out.
        remaining: u64,
    },
    /// Buffering a frame that has to be seen whole.
    Buffering {
        /// Its type.
        kind: u64,
        /// Payload bytes still to arrive.
        remaining: usize,
    },
    /// Discarding a frame of an unknown type.
    Skipping {
        /// Its type.
        kind: u64,
        /// Payload bytes still to discard.
        remaining: u64,
    },
}

/// Why frame type `kind` may not appear on `stream` at all, or `None` if it may.
pub open spec fn misplacement(stream: StreamKind, kind: u64) -> Option<Seq<char>> {
    match stream {
        StreamKind::Control => None,
        StreamKind::Request => if kind == SETTINGS {
            Some("a SETTINGS frame on a request stream"@)
        } else if kind == CANCEL_PUSH {
            Some("a CANCEL_PUSH frame on a request stream"@)
        } else if kind == MAX_PUSH_ID {
            Some("a MAX_PUSH_ID frame on a request stream"@)
        } else if kind == PUSH_PROMISE {
            Some("a PUSH_PROMISE frame, which only a server may send"@)
        } else if kind == GOAWAY {
            Some("a GOAWAY frame on a request stream"@)
        } else {
            None
        },
        StreamKind::Tunnel => if buffered_type(kind) {
            Some("a frame other than DATA once the CONNECT method had completed"@)
        } else {
            None
        },
    }
}

/// What a frame announced on `stream` leads to: the state that takes its
/// payload, or the fault that refuses it. The type is judged before the length.
pub open spec fn announced(stream: StreamKind, kind: u64, length: u64) -> Result<State, Fault> {
    if reserved_type(kind) {
        Err(
            Fault::connection(
                Code::H3_FRAME_UNEXPECTED,
                "frame type "@ + hex_text(kind as nat) + " is reserved for HTTP/2"@,
            ),
        )
    } else if misplacement(stream, kind) is Some {
        Err(Fault::connection(Code::H3_FRAME_UNEXPECTED, misplacement(stream, kind)->0))
    } else if kind == DATA {
        Ok(State::Data { remaining: length })
    } else if buffered_type(kind) {
        if length > MAX_BUFFERED_FRAME {
            Err(
                Fault::field_section_too_large(
                    "a "@ + decimal_text(length as nat)
                        + "-byte frame is past what this server buffers"@,
                ),
            )
        } else {
            Ok(State::Buffering { kind, remaining: length as usize })
        }
    } else {
        Ok(State::Skipping { kind, remaining: length })
    }
}

/// Why frame type `kind` may not appear on `stream` at all, or `None` if it may.
pub fn misplaced(stream: StreamKind, kind: u64) -> (detail: Option<&'static str>)
    ensures
        match detail {
            Some(text) => misplacement(stream, kind) == Some(text@),
            None => misplacement(stream, kind) is None,
        },
{
    match stream {
        StreamKind::Control => None,
        StreamKind::Request => match kind {
            SETTINGS => Some("a SETTINGS frame on a request stream"),
            CANCEL_PUSH => Some("a CANCEL_PUSH frame on a request stream"),
            MAX_PUSH_ID => Some("a MAX_PUSH_ID frame on a request stream"),
            PUSH_PROMISE => Some("a PUSH_PROMISE frame, which only a server may send"),
            GOAWAY => Some("a GOAWAY frame on a request stream"),
            _ => None,
        },
        StreamKind::Tunnel => match kind {
            HEADERS | SETTINGS | GOAWAY | CANCEL_PUSH | MAX_PUSH_ID | PUSH_PROMISE => Some(
                "a frame other than DATA once the CONNECT method had completed",
            ),
            _ => None,
        },
    }
}

/// Decides what to do with a frame that has just been announced on `stream`.
pub fn begin(stream: StreamKind, kind: u64, length: u64) -> (result: Result<State, Error>)
    ensures
        match (result, announced(stream, kind, length)) {
            (Ok(state), Ok(expected)) => state == expected,
            (Err(Error::Protocol(violation)), Err(fault)) => violation@ == fault,
            _ => false,
        },
{
    if is_reserved(RESERVED_HTTP2_TYPES.as_slice(), kind) {
        let mut detail = "frame type ".to_owned();
        let name = hex(kind);
        detail.append(name.as_str());
        detail.append(" is reserved for HTTP/2");
        return Err(
            Error::Protocol(Violation::connection(Code::H3_FRAME_UNEXPECTED, detail.as_str())),
        );
    }
    if let Some(detail) = misplaced(stream, kind) {
        return Err(Error::Protocol(Violation::connection(Code::H3_FRAME_UNEXPECTED, detail)));
    }
    match kind {
        DATA => Ok(State::Data { remaining: length }),
        HEADERS | SETTINGS | GOAWAY | CANCEL_PUSH | MAX_PUSH_ID | PUSH_PROMISE => {
            if length > MAX_BUFFERED_FRAME {
                let mut detail = "a ".to_owned();
                let size = decimal(length);
                detail.append(size.as_str());
                detail.append("-byte frame is past what this server buffers");
                return Err(Error::Protocol(Violation::field_section_too_large(detail.as_str())));
            }
            Ok(State::Buffering { kind, remaining: length as usize })
        },
        _ => Ok(State::Skipping { kind, remaining: length }),
    }
}

// ---------------------------------------------------------------------------
// Frame payloads
// ---------------------------------------------------------------------------

/// The value of a payload that is exactly one variable-length integer.
pub open spec fn only_varint(kind: u64, payload: Seq<u8>) -> Result<u64, Fault> {
    match varint_prefix(payload) {
        Some((value, used)) if used == payload.len() => Ok(value),
        _ => Err(
            Fault::connection(
                Code::H3_FRAME_ERROR,
                "frame type "@ + hex_text(kind as nat) + " does not carry exactly one varint"@,
            ),
        ),
    }
}

/// The two variable-length integers that `bytes` starts with, and how many bytes
/// they take together.
pub open spec fn varint_pair(bytes: Seq<u8>) -> Option<(u64, u64, nat)> {
    match varint_prefix(bytes) {
        Some((first, used)) => match varint_prefix(
            bytes.subrange(used as int, bytes.len() as int),
        ) {
            Some((second, more)) => Some((first, second, used + more)),
            None => None,
        },
        None => None,
    }
}

/// The settings a payload holds, in order, up to where it stops holding any.
pub open spec fn setting_pairs(payload: Seq<u8>) -> Seq<(u64, u64)>
    decreases payload.len(),
{
    match varint_pair(payload) {
        Some((identifier, value, used)) if 0 < used <= payload.len() => seq![
            (identifier, value),
        ] + setting_pairs(payload.subrange(used as int, payload.len() as int)),
        _ => Seq::empty(),
    }
}

/// Whether a payload ends with a whole setting.
pub open spec fn settings_whole(payload: Seq<u8>) -> bool
    decreases payload.len(),
{
    payload.len() == 0 || match varint_pair(payload) {
        Some((identifier, value, used)) if 0 < used <= payload.len() => settings_whole(
            payload.subrange(used as int, payload.len() as int),
        ),
        _ => false,
    }
}

/// What is wrong with the `i`th of these settings, if anything is.
pub open spec fn setting_fault(pairs: Seq<(u64, u64)>, i: int) -> Option<Fault> {
    let (identifier, value) = pairs[i];
    if reserved_setting(identifier) {
        Some(
            Fault::connection(
                Code::H3_SETTINGS_ERROR,
                "setting "@ + hex_text(identifier as nat) + " is reserved for HTTP/2"@,
            ),
        )
    } else if exists|j: int| 0 <= j < i && #[trigger] pairs[j].0 == identifier {
        Some(
            Fault::connection(
                Code::H3_SETTINGS_ERROR,
                "setting "@ + hex_text(identifier as nat) + " occurs more than once"@,
            ),
        )
    } else if identifier == SETTING_H3_DATAGRAM && value > 1 {
        Some(
            Fault::connection(
                Code::H3_SETTINGS_ERROR,
                "setting "@ + hex_text(identifier as nat) + " must be 0 or 1, not "@
                    + decimal_text(value as nat),
            ),
        )
    } else {
        None
    }
}

/// The first fault among the first `count` of these settings.
pub open spec fn first_setting_fault(pairs: Seq<(u64, u64)>, count: nat) -> Option<Fault>
    decreases count,
{
    if count == 0 {
        None
    } else if first_setting_fault(pairs, (count - 1) as nat) is Some {
        first_setting_fault(pairs, (count - 1) as nat)
    } else {
        setting_fault(pairs, count - 1)
    }
}

/// The settings of a SETTINGS payload, or the first thing wrong with it.
pub open spec fn settings_of(payload: Seq<u8>) -> Result<Settings, Fault> {
    let pairs = setting_pairs(payload);
    match first_setting_fault(pairs, pairs.len()) {
        Some(fault) => Err(fault),
        None => if settings_whole(payload) {
            Ok(
                Settings {
                    datagrams: exists|i: int|
                        0 <= i < pairs.len() && #[trigger] pairs[i] == (SETTING_H3_DATAGRAM, 1u64),
                },
            )
        } else {
            Err(Fault::connection(Code::H3_FRAME_ERROR, "the SETTINGS payload ends mid-pair"@))
        },
    }
}

/// The frame a buffered payload makes.
pub open spec fn parsed(kind: u64, payload: Seq<u8>) -> Result<FrameView, Fault> {
    if kind == HEADERS {
        Ok(FrameView::Headers(payload))
    } else if kind == SETTINGS {
        match settings_of(payload) {
            Ok(settings) => Ok(FrameView::Settings(settings)),
            Err(fault) => Err(fault),
        }
    } else if kind == PUSH_PROMISE {
        Ok(FrameView::PushPromise)
    } else {
        match only_varint(kind, payload) {
            Ok(id) => Ok(
                if kind == GOAWAY {
                    FrameView::Goaway(id)
                } else if kind == CANCEL_PUSH {
                    FrameView::CancelPush(id)
                } else {
                    FrameView::MaxPushId(id)
                },
            ),
            Err(fault) => Err(fault),
        }
    }
}

/// Reads a payload that is exactly one variable-length integer.
pub fn single_varint(kind: u64, payload: &[u8]) -> (result: Result<u64, Violation>)
    ensures
        match (result, only_varint(kind, payload@)) {
            (Ok(value), Ok(expected)) => value == expected,
            (Err(violation), Err(fault)) => violation@ == fault,
            _ => false,
        },
{
    if let Some((value, used)) = peek_varint(payload) {
        if used == payload.len() {
            return Ok(value);
        }
    }
    let mut detail = "frame type ".to_owned();
    let name = hex(kind);
    detail.append(name.as_str());
    detail.append(" does not carry exactly one varint");
    Err(Violation::connection(Code::H3_FRAME_ERROR, detail.as_str()))
}

/// A SETTINGS payload that ends in the middle of a pair: the frame's layout is
/// at fault, not what the settings say.
fn truncated_settings() -> (violation: Violation)
    ensures
        violation@ == Fault::connection(
            Code::H3_FRAME_ERROR,
            "the SETTINGS payload ends mid-pair"@,
        ),
{
    Violation::connection(Code::H3_FRAME_ERROR, "the SETTINGS payload ends mid-pair")
}

/// A SETTINGS payload whose identifiers or values break a rule.
fn settings_error(identifier: u64, what: &str) -> (violation: Violation)
    ensures
        violation@ == Fault::connection(
            Code::H3_SETTINGS_ERROR,
            "setting "@ + hex_text(identifier as nat) + what@,
        ),
{
    let mut detail = "setting ".to_owned();
    let name = hex(identifier);
    detail.append(name.as_str());
    detail.append(what);
    Violation::connection(Code::H3_SETTINGS_ERROR, detail.as_str())
}

/// Reads a setting whose value may only be 0 or 1.
fn boolean(identifier: u64, value: u64) -> (result: Result<bool, Violation>)
    ensures
        match result {
            Ok(on) => value == if on { 1u64 } else { 0u64 },
            Err(violation) => value > 1 && violation@ == Fault::connection(
                Code::H3_SETTINGS_ERROR,
                "setting "@ + hex_text(identifier as nat) + " must be 0 or 1, not "@
                    + decimal_text(value as nat),
            ),
        },
{
    match value {
        0 => Ok(false),
        1 => Ok(true),
        _ => {
            let mut what = " must be 0 or 1, not ".to_owned();
            let shown = decimal(value);
            what.append(shown.as_str());
            proof {
                assert("setting "@ + hex_text(identifier as nat) + (" must be 0 or 1, not "@
                    + decimal_text(value as nat)) =~= "setting "@ + hex_text(identifier as nat)
                    + " must be 0 or 1, not "@ + decimal_text(value as nat));
            }
            Err(settings_error(identifier, what.as_str()))
        },
    }
}

/// A fault among the first settings is the first fault of all of them.
proof fn lemma_first_setting_fault(pairs: Seq<(u64, u64)>, count: nat, more: nat)
    requires
        first_setting_fault(pairs, count) is Some,
        count <= more,
    ensures
        first_setting_fault(pairs, more) == first_setting_fault(pairs, count),
    decreases more,
{
    if count < more {
        lemma_first_setting_fault(pairs, count, (more - 1) as nat);
    }
}

/// Parses a SETTINGS payload (RFC 9114 section 7.2.4).
///
/// `SETTINGS_ENABLE_CONNECT_PROTOCOL` has no meaning at a server, so any value
/// of it is ignored, like any setting this server does not know.
pub fn parse_settings(payload: &[u8]) -> (result: Result<Settings, Violation>)
    ensures
        agrees(result, settings_of(payload@)),
{
    broadcast use vstd::std_specs::hash::group_hash_axioms;

    let mut settings = Settings { datagrams: false };
    let mut seen: std::collections::HashSet<u64> = std::collections::HashSet::new();
    let mut at: usize = 0;
    let ghost pairs = setting_pairs(payload@);
    let ghost mut done: nat = 0;
    assert(payload@.subrange(0, payload@.len() as int) =~= payload@);
    assert(pairs.subrange(0, pairs.len() as int) =~= pairs);
    while at < payload.len()
        invariant
            at <= payload.len(),
            done <= pairs.len(),
            pairs == setting_pairs(payload@),
            setting_pairs(payload@.subrange(at as int, payload@.len() as int))
                == pairs.subrange(done as int, pairs.len() as int),
            settings_whole(payload@.subrange(at as int, payload@.len() as int))
                == settings_whole(payload@),
            first_setting_fault(pairs, done) is None,
            forall|identifier: u64|
                seen@.contains(identifier) <==> exists|j: int|
                    0 <= j < done && #[trigger] pairs[j].0 == identifier,
            settings.datagrams <==> exists|i: int|
                0 <= i < done && #[trigger] pairs[i] == (SETTING_H3_DATAGRAM, 1u64),
        decreases payload.len() - at,
    {
        broadcast use vstd::std_specs::hash::group_hash_axioms;

        let ghost rest = payload@.subrange(at as int, payload@.len() as int);
        let first = vstd::slice::slice_subrange(payload, at, payload.len());
        let (identifier, used): (u64, usize) = match peek_varint(first) {
            Some(read) => read,
            None => {
                assert(setting_pairs(rest) =~= Seq::empty());
                assert(done == pairs.len());
                return Err(truncated_settings());
            },
        };
        let second = vstd::slice::slice_subrange(first, used, first.len());
        let (value, used_by_value): (u64, usize) = match peek_varint(second) {
            Some(read) => read,
            None => {
                assert(setting_pairs(rest) =~= Seq::empty());
                assert(done == pairs.len());
                return Err(truncated_settings());
            },
        };
        let ghost total: nat = (used + used_by_value) as nat;
        proof {
            let after = rest.subrange(total as int, rest.len() as int);
            assert(varint_pair(rest) == Some((identifier, value, total)));
            let tail = pairs.subrange(done as int, pairs.len() as int);
            assert(tail == seq![(identifier, value)] + setting_pairs(after));
            assert(tail.len() >= 1);
            assert(tail[0] == (identifier, value));
            assert(tail[0] == pairs[done as int]);
            assert(after =~= payload@.subrange((at + total) as int, payload@.len() as int));
            assert(setting_pairs(after) =~= pairs.subrange(done as int + 1, pairs.len() as int)) by {
                assert(tail.subrange(1, tail.len() as int) =~= setting_pairs(after));
                assert(tail.subrange(1, tail.len() as int) =~= pairs.subrange(
                    done as int + 1,
                    pairs.len() as int,
                ));
            }
            if setting_fault(pairs, done as int) is Some {
                lemma_first_setting_fault(pairs, done + 1, pairs.len());
            }
        }
        at = at + used + used_by_value;
        if is_reserved(RESERVED_HTTP2_SETTINGS.as_slice(), identifier) {
            return Err(settings_error(identifier, " is reserved for HTTP/2"));
        }
        if !seen.insert(identifier) {
            return Err(settings_error(identifier, " occurs more than once"));
        }
        if identifier == SETTING_H3_DATAGRAM {
            match boolean(identifier, value) {
                Ok(on) => {
                    settings = Settings { datagrams: on };
                },
                Err(violation) => {
                    return Err(violation);
                },
            }
        }
        proof {
            assert(pairs[done as int].0 == identifier);
            assert(pairs[done as int] == (identifier, value));
            if identifier == SETTING_H3_DATAGRAM {
                assert forall|j: int| 0 <= j < done implies #[trigger] pairs[j] != (
                    SETTING_H3_DATAGRAM,
                    1u64,
                ) by {
                    assert(pairs[j].0 != identifier);
                }
            }
            done = done + 1;
        }
    }
    proof {
        assert(payload@.subrange(at as int, payload@.len() as int) =~= Seq::<u8>::empty());
        assert(setting_pairs(Seq::<u8>::empty()) =~= Seq::empty());
        assert(done == pairs.len());
    }
    Ok(settings)
}

/// Parses a buffered frame payload.
fn parse(kind: u64, payload: Bytes) -> (result: Result<Frame, Violation>)
    requires
        buffered_type(kind),
    ensures
        agrees(result, parsed(kind, held(payload))),
{
    if kind == HEADERS {
        return Ok(Frame::Headers(payload));
    }
    if kind == SETTINGS {
        return match parse_settings(bytes_slice(&payload)) {
            Ok(settings) => Ok(Frame::Settings(settings)),
            Err(violation) => Err(violation),
        };
    }
    if kind == PUSH_PROMISE {
        return Ok(Frame::PushPromise);
    }
    match single_varint(kind, bytes_slice(&payload)) {
        Ok(id) => Ok(
            if kind == GOAWAY {
                Frame::Goaway(id)
            } else if kind == CANCEL_PUSH {
                Frame::CancelPush(id)
            } else {
                Frame::MaxPushId(id)
            },
        ),
        Err(violation) => Err(violation),
    }
}

// ---------------------------------------------------------------------------
// The decoder
// ---------------------------------------------------------------------------

/// The frame header that `bytes` starts with: a type, a payload length, and how
/// many bytes the header takes.
pub open spec fn frame_header(bytes: Seq<u8>) -> Option<(u64, u64, nat)> {
    varint_pair(bytes)
}

/// A decoder's state, in terms of bytes.
pub struct DecoderView {
    /// What has been pushed and not yet consumed.
    pub chunk: Seq<u8>,
    /// The bytes of an unfinished frame header.
    pub header: Seq<u8>,
    /// The payload of an unfinished buffered frame.
    pub payload: Seq<u8>,
    /// What is charged to the budget for that frame.
    pub charged: nat,
    /// Whose rules the frame types are judged by.
    pub stream: StreamKind,
    /// Where in the frame sequence the decoder is.
    pub state: State,
}

impl DecoderView {
    /// What holds of every decoder between calls.
    pub open spec fn well_formed(self) -> bool {
        &&& frame_header(self.header) is None
        &&& self.state is Header || self.header.len() == 0
        &&& match self.state {
            State::Buffering { kind, remaining } => {
                &&& buffered_type(kind)
                &&& self.charged == self.payload.len() + remaining
                &&& self.charged <= MAX_BUFFERED_FRAME
                &&& remaining > 0
            },
            State::Data { remaining } => self.charged == 0 && self.payload.len() == 0 && remaining
                > 0,
            State::Skipping { kind, remaining } => self.charged == 0 && self.payload.len() == 0
                && remaining > 0,
            State::Header => self.charged == 0 && self.payload.len() == 0,
        }
    }
}

/// What one call for the next item does.
pub struct Step {
    /// The decoder afterwards.
    pub decoder: DecoderView,
    /// What the budget holds afterwards.
    pub held: nat,
    /// The item, `None` where more bytes are needed, or the fault.
    pub outcome: Result<Option<ItemView>, Fault>,
}

/// The lesser of two numbers.
pub open spec fn lesser(left: nat, right: nat) -> nat {
    if left <= right {
        left
    } else {
        right
    }
}

/// The next item of a decoder that is inside a frame's payload.
pub open spec fn payload_step(decoder: DecoderView, held: nat) -> Step {
    let chunk = decoder.chunk;
    match decoder.state {
        State::Header => Step { decoder, held, outcome: Ok(None) },
        State::Data { remaining } => {
            let take = lesser(remaining as nat, chunk.len());
            if remaining > 0 && take == 0 {
                Step { decoder, held, outcome: Ok(None) }
            } else {
                Step {
                    decoder: DecoderView {
                        chunk: chunk.subrange(take as int, chunk.len() as int),
                        state: if take == remaining {
                            State::Header
                        } else {
                            State::Data { remaining: (remaining - take) as u64 }
                        },
                        ..decoder
                    },
                    held,
                    outcome: Ok(Some(ItemView::Data(chunk.subrange(0, take as int)))),
                }
            }
        },
        State::Buffering { kind, remaining } => {
            let take = lesser(remaining as nat, chunk.len());
            let payload = decoder.payload + chunk.subrange(0, take as int);
            let rest = chunk.subrange(take as int, chunk.len() as int);
            if take < remaining {
                Step {
                    decoder: DecoderView {
                        chunk: rest,
                        payload,
                        state: State::Buffering { kind, remaining: (remaining - take) as usize },
                        ..decoder
                    },
                    held,
                    outcome: Ok(None),
                }
            } else {
                Step {
                    decoder: DecoderView {
                        chunk: rest,
                        payload: Seq::empty(),
                        charged: 0,
                        state: State::Header,
                        ..decoder
                    },
                    held: released(held, decoder.charged),
                    outcome: match parsed(kind, payload) {
                        Ok(frame) => Ok(Some(ItemView::Frame(frame))),
                        Err(fault) => Err(fault),
                    },
                }
            }
        },
        State::Skipping { kind, remaining } => {
            let take = lesser(remaining as nat, chunk.len());
            let rest = chunk.subrange(take as int, chunk.len() as int);
            if take < remaining {
                Step {
                    decoder: DecoderView {
                        chunk: rest,
                        state: State::Skipping { kind, remaining: (remaining - take) as u64 },
                        ..decoder
                    },
                    held,
                    outcome: Ok(None),
                }
            } else {
                Step {
                    decoder: DecoderView { chunk: rest, state: State::Header, ..decoder },
                    held,
                    outcome: Ok(Some(ItemView::Skipped { kind })),
                }
            }
        },
    }
}

/// The decoder once a header has been taken off the bytes it has.
pub open spec fn past_header(decoder: DecoderView, used: nat) -> DecoderView {
    let bytes = decoder.header + decoder.chunk;
    DecoderView {
        chunk: bytes.subrange(used as int, bytes.len() as int),
        header: Seq::empty(),
        ..decoder
    }
}

/// The next item of a decoder whose budget holds `held` bytes.
pub open spec fn next_step(decoder: DecoderView, held: nat) -> Step {
    if decoder.state is Header {
        let bytes = decoder.header + decoder.chunk;
        match frame_header(bytes) {
            None => Step {
                decoder: DecoderView { chunk: Seq::empty(), header: bytes, ..decoder },
                held,
                outcome: Ok(None),
            },
            Some((kind, length, used)) => {
                let after = past_header(decoder, used);
                match announced(decoder.stream, kind, length) {
                    Err(fault) => Step { decoder: after, held, outcome: Err(fault) },
                    Ok(state) => match state {
                        State::Buffering { kind: _, remaining } => if held + remaining
                            > HEADERS_BUFFER_BUDGET {
                            Step {
                                decoder: after,
                                held,
                                outcome: Err(past_budget(remaining as nat, held)),
                            }
                        } else {
                            payload_step(
                                DecoderView { state, charged: remaining as nat, ..after },
                                held + remaining as nat,
                            )
                        },
                        _ => payload_step(DecoderView { state, ..after }, held),
                    },
                }
            },
        }
    } else {
        payload_step(decoder, held)
    }
}

/// A header reads the same whatever follows it.
pub(crate) proof fn lemma_header_local(bytes: Seq<u8>, longer: Seq<u8>)
    requires
        frame_header(bytes) is Some,
        bytes.len() <= longer.len(),
        longer.subrange(0, bytes.len() as int) == bytes,
    ensures
        frame_header(longer) == frame_header(bytes),
{
    let (kind, length, used) = frame_header(bytes)->0;
    let first = (varint_prefix(bytes)->0).1;
    let rest = longer.subrange(bytes.len() as int, longer.len() as int);
    assert(longer =~= bytes + rest);
    crate::datagram::varint_ignores_what_follows(bytes, rest);
    let tail = bytes.subrange(first as int, bytes.len() as int);
    crate::datagram::varint_ignores_what_follows(tail, rest);
    assert(longer.subrange(first as int, longer.len() as int) =~= tail + rest);
}

/// A header takes no more than the bytes it is read from, and the bytes it takes
/// are enough to read it.
pub(crate) proof fn lemma_header_exact(bytes: Seq<u8>)
    requires
        frame_header(bytes) is Some,
    ensures
        2 <= (frame_header(bytes)->0).2 <= bytes.len(),
        (frame_header(bytes)->0).2 <= MAX_FRAME_HEADER,
        frame_header(bytes.subrange(0, (frame_header(bytes)->0).2 as int)) == frame_header(bytes),
{
    let (kind, length, used) = frame_header(bytes)->0;
    let first = (varint_prefix(bytes)->0).1;
    let second = (used - first) as nat;
    let head = bytes.subrange(0, used as int);
    let tail = bytes.subrange(first as int, bytes.len() as int);
    assert(head[0] == bytes[0]);
    assert(head.subrange(0, first as int) =~= bytes.subrange(0, first as int));
    let head_tail = head.subrange(first as int, head.len() as int);
    assert(head_tail[0] == tail[0]);
    assert(head_tail.subrange(0, second as int) =~= tail.subrange(0, second as int));
}

/// As many bytes as the longest header has hold a header.
proof fn lemma_header_long_enough(bytes: Seq<u8>)
    requires
        bytes.len() >= MAX_FRAME_HEADER,
    ensures
        frame_header(bytes) is Some,
{
}

/// An incremental frame decoder, fed chunks as they arrive.
///
/// Frames do not align with chunks in either direction, so a chunk may end
/// anywhere: inside a header, inside a payload, or between two frames.
#[derive(Debug)]
pub struct FrameDecoder {
    chunk: Bytes,
    header: [u8; 16],
    header_len: usize,
    payload: BytesMut,
    charged: usize,
    stream: StreamKind,
    state: State,
}

impl View for FrameDecoder {
    type V = DecoderView;

    closed spec fn view(&self) -> DecoderView {
        DecoderView {
            chunk: held(self.chunk),
            header: self.header@.subrange(0, self.header_len as int),
            payload: written(self.payload),
            charged: self.charged as nat,
            stream: self.stream,
            state: self.state,
        }
    }
}

impl FrameDecoder {
    /// What holds of every decoder between calls.
    pub closed spec fn well_formed(self) -> bool {
        self.header_len <= MAX_FRAME_HEADER && self@.well_formed()
    }

    /// A well-formed decoder is one in terms of bytes.
    pub proof fn well_formed_view(self)
        requires
            self.well_formed(),
        ensures
            self@.well_formed(),
    {
    }

    /// A decoder positioned at the start of a stream's frame sequence.
    pub fn new(stream: StreamKind) -> (decoder: FrameDecoder)
        ensures
            decoder.well_formed(),
            decoder@ == (DecoderView {
                chunk: Seq::empty(),
                header: Seq::empty(),
                payload: Seq::empty(),
                charged: 0,
                stream,
                state: State::Header,
            }),
    {
        let decoder = FrameDecoder {
            chunk: bytes_new(),
            header: [0u8; 16],
            header_len: 0,
            payload: bytes_mut_new(),
            charged: 0,
            stream,
            state: State::Header,
        };
        assert(decoder@.header =~= Seq::<u8>::empty());
        decoder
    }

    /// Hands the decoder the next chunk of its stream, once the one before is
    /// spent.
    pub fn push(&mut self, chunk: Bytes)
        requires
            old(self).well_formed(),
            old(self)@.chunk.len() == 0,
        ensures
            final(self).well_formed(),
            final(self)@ == (DecoderView { chunk: held(chunk), ..old(self)@ }),
    {
        self.chunk = chunk;
    }

    /// Narrows the frame rules to those of a tunnel, once the CONNECT has been
    /// answered.
    pub fn connect_completed(&mut self)
        requires
            old(self).well_formed(),
        ensures
            final(self).well_formed(),
            final(self)@ == (DecoderView { stream: StreamKind::Tunnel, ..old(self)@ }),
    {
        self.stream = StreamKind::Tunnel;
    }

    /// Whose rules the frame types are judged by.
    pub fn stream(&self) -> (stream: StreamKind)
        ensures
            stream == self@.stream,
    {
        self.stream
    }

    /// Whether the stream could end here without truncating a frame.
    pub fn at_frame_boundary(&self) -> (boundary: bool)
        requires
            self.well_formed(),
        ensures
            boundary <==> self@.state is Header && self@.header.len() == 0,
    {
        match self.state {
            State::Header => self.header_len == 0,
            _ => false,
        }
    }

    /// Reads a frame type and length, or `None` if not all of it has arrived.
    fn take_frame_header(&mut self) -> (taken: Option<(u64, u64)>)
        requires
            old(self).well_formed(),
            old(self)@.state is Header,
        ensures
            final(self).well_formed(),
            match taken {
                Some((kind, length)) => {
                    let found = frame_header(old(self)@.header + old(self)@.chunk);
                    &&& found matches Some((k, l, used)) && k == kind && l == length && final(self)@
                        == past_header(old(self)@, used)
                },
                None => {
                    &&& frame_header(old(self)@.header + old(self)@.chunk) is None
                    &&& final(self)@ == (DecoderView {
                        chunk: Seq::empty(),
                        header: old(self)@.header + old(self)@.chunk,
                        ..old(self)@
                    })
                },
            },
    {
        let ghost before = self@;
        let ghost bytes = before.header + before.chunk;
        loop
            invariant
                self.header_len <= MAX_FRAME_HEADER,
                before == old(self)@,
                bytes == before.header + before.chunk,
                self@ == (DecoderView { chunk: self@.chunk, header: self@.header, ..before }),
                self@.header + self@.chunk == bytes,
                before.well_formed(),
                before.state is Header,
                self@.header.len() > 0 ==> frame_header(self@.header.drop_last()) is None,
            decreases self@.chunk.len(),
        {
            let ghost header = self@.header;
            let carried = vstd::slice::slice_subrange(self.header.as_slice(), 0, self.header_len);
            assert(carried@ =~= header);
            if let Some((kind, used)) = peek_varint(carried) {
                let rest = vstd::slice::slice_subrange(carried, used, carried.len());
                if let Some((length, more)) = peek_varint(rest) {
                    proof {
                        lemma_header_exact(header);
                        let total = (frame_header(header)->0).2;
                        if total < header.len() {
                            let short = header.drop_last();
                            assert(short.subrange(0, total as int) =~= header.subrange(
                                0,
                                total as int,
                            ));
                            lemma_header_local(header.subrange(0, total as int), short);
                        }
                        assert(bytes.subrange(0, header.len() as int) =~= header);
                        lemma_header_local(header, bytes);
                        assert(bytes.subrange(total as int, bytes.len() as int) =~= self@.chunk);
                    }
                    self.header_len = 0;
                    assert(self@.header =~= Seq::<u8>::empty());
                    return Some((kind, length));
                }
            }
            proof {
                if header.len() >= MAX_FRAME_HEADER {
                    lemma_header_long_enough(header);
                }
            }
            let available = bytes_slice(&self.chunk);
            if available.len() == 0 {
                assert(bytes =~= header);
                assert(self@.chunk =~= Seq::<u8>::empty());
                return None;
            }
            let byte: u8 = available[0];
            bytes_advance(&mut self.chunk, 1);
            self.header[self.header_len] = byte;
            self.header_len = self.header_len + 1;
            assert(self@.header =~= header.push(byte));
            assert(self@.header.drop_last() =~= header);
            assert(self@.header + self@.chunk =~= bytes);
        }
    }

    /// The next item, or `None` when more bytes are needed.
    ///
    /// `budget` is the connection's. The length of a frame that has to be
    /// buffered is charged to it on the announcement, before a byte of it has
    /// arrived, and given back when the frame is complete.
    pub fn next_item(&mut self, budget: &mut BufferBudget) -> (result: Result<Option<Item>, Error>)
        requires
            old(self).well_formed(),
        ensures
            final(self).well_formed(),
            final(self)@ == next_step(old(self)@, old(budget)@).decoder,
            final(budget)@ == next_step(old(self)@, old(budget)@).held,
            match (result, next_step(old(self)@, old(budget)@).outcome) {
                (Ok(Some(item)), Ok(Some(view))) => item@ == view,
                (Ok(None), Ok(None)) => true,
                (Err(Error::Protocol(violation)), Err(fault)) => violation@ == fault,
                _ => false,
            },
    {
        if let State::Header = self.state {
            let (kind, length): (u64, u64) = match self.take_frame_header() {
                Some(header) => header,
                None => {
                    return Ok(None);
                },
            };
            let next: State = match begin(self.stream, kind, length) {
                Ok(next) => next,
                Err(error) => {
                    return Err(error);
                },
            };
            if let State::Buffering { kind: _, remaining } = next {
                match budget.charge(remaining) {
                    Ok(()) => {
                        self.charged = remaining;
                    },
                    Err(violation) => {
                        return Err(Error::Protocol(violation));
                    },
                }
            }
            self.state = next;
        }
        let ghost inside = self@;
        let available: usize = bytes_slice(&self.chunk).len();
        match self.state {
            State::Header => Ok(None),
            State::Data { remaining } => {
                if remaining == 0 {
                    self.state = State::Header;
                    assert(inside.chunk.subrange(0, 0) =~= Seq::<u8>::empty());
                    assert(inside.chunk.subrange(0, inside.chunk.len() as int) =~= inside.chunk);
                    return Ok(Some(Item::Data(bytes_new())));
                }
                let take: usize = if remaining <= available as u64 {
                    remaining as usize
                } else {
                    available
                };
                if take == 0 {
                    return Ok(None);
                }
                let data = bytes_split_to(&mut self.chunk, take);
                self.state = if remaining == take as u64 {
                    State::Header
                } else {
                    State::Data { remaining: remaining - take as u64 }
                };
                Ok(Some(Item::Data(data)))
            },
            State::Buffering { kind, remaining } => {
                let take: usize = if remaining <= available {
                    remaining
                } else {
                    available
                };
                let arrived = vstd::slice::slice_subrange(bytes_slice(&self.chunk), 0, take);
                bytes_mut_extend(&mut self.payload, arrived);
                bytes_advance(&mut self.chunk, take);
                if take < remaining {
                    self.state = State::Buffering { kind, remaining: remaining - take };
                    return Ok(None);
                }
                self.state = State::Header;
                let payload = bytes_mut_freeze(bytes_mut_split(&mut self.payload));
                budget.release(self.charged);
                self.charged = 0;
                match parse(kind, payload) {
                    Ok(frame) => Ok(Some(Item::Frame(frame))),
                    Err(violation) => Err(Error::Protocol(violation)),
                }
            },
            State::Skipping { kind, remaining } => {
                let take: usize = if remaining <= available as u64 {
                    remaining as usize
                } else {
                    available
                };
                bytes_advance(&mut self.chunk, take);
                if remaining == take as u64 {
                    self.state = State::Header;
                    Ok(Some(Item::Skipped { kind }))
                } else {
                    self.state = State::Skipping { kind, remaining: remaining - take as u64 };
                    Ok(None)
                }
            },
        }
    }

    /// Gives the decoder up, returning to the budget what a half-received frame
    /// was holding.
    pub fn abandon(self, budget: &mut BufferBudget)
        ensures
            final(budget)@ == released(old(budget)@, self@.charged),
    {
        budget.release(self.charged);
    }
}

/// What the owner of a [`FrameReader`] has to do next.
#[derive(Debug)]
pub enum Next {
    /// Take this item.
    Item(Item),
    /// Read the next chunk of the stream and hand it over.
    Read,
    /// Nothing: the peer has finished cleanly.
    End,
}

/// A [`FrameDecoder`] and whether its stream has ended: everything a reader of
/// frames needs but the reading itself.
#[derive(Debug)]
pub struct FrameReader {
    decoder: FrameDecoder,
    finished: bool,
}

impl FrameReader {
    /// The decoder's state.
    pub closed spec fn decoder(self) -> DecoderView {
        self.decoder@
    }

    /// Whether the stream has ended.
    pub closed spec fn finished(self) -> bool {
        self.finished
    }

    /// What holds of every reader between calls.
    pub closed spec fn well_formed(self) -> bool {
        self.decoder.well_formed()
    }

    /// A well-formed reader has a well-formed decoder.
    pub proof fn well_formed_view(self)
        requires
            self.well_formed(),
        ensures
            self.decoder().well_formed(),
    {
    }

    fn with_kind(stream: StreamKind) -> (reader: FrameReader)
        ensures
            reader.well_formed(),
            !reader.finished(),
            reader.decoder() == (DecoderView {
                chunk: Seq::empty(),
                header: Seq::empty(),
                payload: Seq::empty(),
                charged: 0,
                stream,
                state: State::Header,
            }),
    {
        FrameReader { decoder: FrameDecoder::new(stream), finished: false }
    }

    /// A reader for a stream on which every frame type this server parses may
    /// appear: the peer's control stream.
    pub fn new() -> (reader: FrameReader)
        ensures
            reader.well_formed(),
            !reader.finished(),
            reader.decoder() == (DecoderView {
                chunk: Seq::empty(),
                header: Seq::empty(),
                payload: Seq::empty(),
                charged: 0,
                stream: StreamKind::Control,
                state: State::Header,
            }),
    {
        FrameReader::with_kind(StreamKind::Control)
    }

    /// A reader for a request stream whose request has not completed.
    pub fn on_request_stream() -> (reader: FrameReader)
        ensures
            reader.well_formed(),
            !reader.finished(),
            reader.decoder() == (DecoderView {
                chunk: Seq::empty(),
                header: Seq::empty(),
                payload: Seq::empty(),
                charged: 0,
                stream: StreamKind::Request,
                state: State::Header,
            }),
    {
        FrameReader::with_kind(StreamKind::Request)
    }

    /// Narrows the frame rules to those of a tunnel.
    pub fn connect_completed(&mut self)
        requires
            old(self).well_formed(),
        ensures
            final(self).well_formed(),
            final(self).finished() == old(self).finished(),
            final(self).decoder() == (DecoderView {
                stream: StreamKind::Tunnel,
                ..old(self).decoder()
            }),
    {
        self.decoder.connect_completed();
    }

    /// The next item that is already there, or what to do to get one.
    pub fn next(&mut self, budget: &mut BufferBudget) -> (result: Result<Next, Error>)
        requires
            old(self).well_formed(),
        ensures
            final(self).well_formed(),
            final(self).finished() == old(self).finished(),
            final(self).decoder() == next_step(old(self).decoder(), old(budget)@).decoder,
            final(budget)@ == next_step(old(self).decoder(), old(budget)@).held,
            match (result, next_step(old(self).decoder(), old(budget)@).outcome) {
                (Ok(Next::Item(item)), Ok(Some(view))) => item@ == view,
                (Ok(Next::End), Ok(None)) => old(self).finished(),
                (Ok(Next::Read), Ok(None)) => !old(self).finished()
                    && final(self).decoder().chunk.len() == 0,
                (Err(Error::Protocol(violation)), Err(fault)) => violation@ == fault,
                _ => false,
            },
    {
        proof {
            self.decoder.well_formed_view();
            lemma_step_well_formed(self.decoder@, budget@);
        }
        match self.decoder.next_item(budget) {
            Ok(Some(item)) => Ok(Next::Item(item)),
            Ok(None) => if self.finished {
                Ok(Next::End)
            } else {
                Ok(Next::Read)
            },
            Err(error) => Err(error),
        }
    }

    /// Takes what a read of the stream gave: the next chunk, or `None` where the
    /// peer has finished.
    ///
    /// A stream that ends part-way through a frame is a connection error.
    pub fn received(&mut self, chunk: Option<Bytes>) -> (result: Result<(), Error>)
        requires
            old(self).well_formed(),
            old(self).decoder().chunk.len() == 0,
        ensures
            final(self).well_formed(),
            match chunk {
                Some(bytes) => result is Ok && final(self).finished() == old(self).finished()
                    && final(self).decoder() == (DecoderView {
                    chunk: held(bytes),
                    ..old(self).decoder()
                }),
                None => final(self).finished() && final(self).decoder() == old(self).decoder()
                    && if at_boundary(old(self).decoder()) {
                    result is Ok
                } else {
                    result matches Err(Error::Protocol(violation)) && violation@
                        == Fault::connection(
                        Code::H3_FRAME_ERROR,
                        "the stream ended part-way through a frame"@,
                    )
                },
            },
    {
        match chunk {
            Some(bytes) => {
                self.decoder.push(bytes);
                Ok(())
            },
            None => {
                self.finished = true;
                if self.decoder.at_frame_boundary() {
                    Ok(())
                } else {
                    Err(
                        Error::Protocol(
                            Violation::connection(
                                Code::H3_FRAME_ERROR,
                                "the stream ended part-way through a frame",
                            ),
                        ),
                    )
                }
            },
        }
    }

    /// Gives the reader up, returning to the budget what a half-received frame
    /// was holding.
    pub fn abandon(self, budget: &mut BufferBudget)
        ensures
            final(budget)@ == released(old(budget)@, self.decoder().charged),
    {
        self.decoder.abandon(budget);
    }
}

/// Whether a stream could end here without truncating a frame.
pub open spec fn at_boundary(decoder: DecoderView) -> bool {
    decoder.state is Header && decoder.header.len() == 0
}

// ---------------------------------------------------------------------------
// What this server writes
// ---------------------------------------------------------------------------

/// A frame header on the wire.
pub open spec fn header_bytes(kind: u64, length: u64) -> Seq<u8> {
    varint_bytes(kind) + varint_bytes(length)
}

/// Settings on the wire.
pub open spec fn pairs_bytes(pairs: Seq<(u64, u64)>) -> Seq<u8>
    decreases pairs.len(),
{
    if pairs.len() == 0 {
        Seq::empty()
    } else {
        pairs_bytes(pairs.drop_last()) + header_bytes(pairs.last().0, pairs.last().1)
    }
}

/// The settings this server advertises.
pub open spec fn advertised() -> Seq<(u64, u64)> {
    seq![
        (SETTING_QPACK_MAX_TABLE_CAPACITY, 0u64),
        (SETTING_QPACK_BLOCKED_STREAMS, 0u64),
        (SETTING_MAX_FIELD_SECTION_SIZE, MAX_FIELD_SECTION_SIZE),
        (SETTING_ENABLE_CONNECT_PROTOCOL, 1u64),
        (SETTING_H3_DATAGRAM, 1u64),
        (SETTING_GREASE, 0u64),
    ]
}

/// Writes a frame header: type and payload length.
pub fn put_header(out: &mut BytesMut, kind: u64, length: u64)
    requires
        kind <= VARINT_MAX,
        length <= VARINT_MAX,
        has_room(*old(out), varint_size(kind) + varint_size(length)),
    ensures
        written(*final(out)) == written(*old(out)) + header_bytes(kind, length),
        header_bytes(kind, length).len() == varint_size(kind) + varint_size(length),
{
    put_varint(out, kind);
    put_varint(out, length);
    assert(written(*out) =~= written(*old(out)) + header_bytes(kind, length));
}

/// The SETTINGS frame this server sends, payload only.
///
/// The QPACK settings are zeroes: they are what makes a decoder that knows only
/// the static table a correct one.
pub fn settings_payload() -> (payload: BytesMut)
    ensures
        written(payload) == pairs_bytes(advertised()),
        written(payload).len() <= 96,
{
    let settings: [(u64, u64); 6] = [
        (SETTING_QPACK_MAX_TABLE_CAPACITY, 0u64),
        (SETTING_QPACK_BLOCKED_STREAMS, 0u64),
        (SETTING_MAX_FIELD_SECTION_SIZE, MAX_FIELD_SECTION_SIZE),
        (SETTING_ENABLE_CONNECT_PROTOCOL, 1u64),
        (SETTING_H3_DATAGRAM, 1u64),
        (SETTING_GREASE, 0u64),
    ];
    let mut payload = bytes_mut_new();
    let mut at: usize = 0;
    assert(settings@ =~= advertised());
    assert(advertised().subrange(0, 0) =~= Seq::empty());
    while at < 6
        invariant
            at <= 6,
            settings@ == advertised(),
            written(payload) == pairs_bytes(advertised().subrange(0, at as int)),
            written(payload).len() <= 16 * at,
        decreases 6 - at,
    {
        let (identifier, value) = settings[at];
        put_header(&mut payload, identifier, value);
        proof {
            let shorter = advertised().subrange(0, at as int);
            let longer = advertised().subrange(0, at as int + 1);
            assert(longer.drop_last() =~= shorter);
            assert(longer.last() == (identifier, value));
        }
        at = at + 1;
    }
    assert(advertised().subrange(0, 6) =~= advertised());
    payload
}

// ---------------------------------------------------------------------------
// Laws
// ---------------------------------------------------------------------------

/// Every step keeps a decoder well-formed, and one that asks for more bytes has
/// consumed all it had.
pub proof fn lemma_step_well_formed(decoder: DecoderView, held: nat)
    requires
        decoder.well_formed(),
    ensures
        next_step(decoder, held).decoder.well_formed(),
        next_step(decoder, held).outcome == Ok::<Option<ItemView>, Fault>(None) ==> next_step(
            decoder,
            held,
        ).decoder.chunk.len() == 0,
        next_step(decoder, held).outcome != Ok::<Option<ItemView>, Fault>(None) ==> next_step(
            decoder,
            held,
        ).decoder.chunk.len() < decoder.chunk.len(),
{
    if decoder.state is Header {
        let bytes = decoder.header + decoder.chunk;
        if frame_header(bytes) is Some {
            lemma_header_exact(bytes);
            let used = (frame_header(bytes)->0).2;
            if used <= decoder.header.len() {
                let head = bytes.subrange(0, used as int);
                assert(decoder.header.subrange(0, used as int) =~= head);
                lemma_header_local(head, decoder.header);
            }
        }
    }
}

} // verus!
