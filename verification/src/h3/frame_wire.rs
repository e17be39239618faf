//! What each frame on the wire is taken for, by its type and on each stream (RFC
//! 9114 sections 7 and 11.2), whoever wrote it.

use vstd::prelude::*;
use vstd::utf8::encode_utf8;

use crate::datagram::VARINT_MAX;
use crate::datagram_wire::{
    cut_short, integers_are_read, only_what_is_cut_short_is_not_read, spells,
    written_integers_are_spelled,
};
use crate::h3::error::{Code, Fault};
use crate::h3::frame::{
    DecoderView, FrameView, ItemView, Settings, State, Step, StreamKind, advertised, announced,
    at_boundary, first_setting_fault, frame_header, header_bytes, next_step, parsed, past_header,
    released, reserved_setting, reserved_type, setting_fault, setting_pairs, settings_of,
    settings_whole, varint_pair,
};
use crate::h3::frame_laws::fed;
use crate::h3::message::{FieldBytes, RequestView, Status, three_digits};
use crate::h3::qpack::{section_bytes, section_fields};
use crate::h3::qpack_wire::{counted_size, is_too_large};
use crate::h3::stream::{
    Reaction, Reading, ReceivedView, reaction_to, Receiving, receiving, request_of,
    request_of_block, request_reading, response_fields,
};

verus! {

/// Whether a fault closes the connection over a frame in the wrong place.
pub open spec fn is_unexpected(fault: Fault) -> bool {
    fault.fatal && fault.code == Code::H3_FRAME_UNEXPECTED
}

/// Whether a frame type is one that HTTP/3 defines beside DATA.
pub open spec fn is_defined(kind: nat) -> bool {
    kind == 1 || kind == 3 || kind == 4 || kind == 5 || kind == 7 || kind == 13
}

/// Whether a frame type is one that HTTP/3 keeps from being used.
pub open spec fn is_withheld(kind: nat) -> bool {
    kind == 2 || kind == 6 || kind == 8 || kind == 9
}

proof fn lemma_withheld(kind: u64)
    ensures
        reserved_type(kind) <==> is_withheld(kind as nat),
        reserved_setting(kind) <==> (kind == 0 || 2 <= kind <= 5),
{
    let types = crate::h3::frame::RESERVED_HTTP2_TYPES@;
    let settings = crate::h3::frame::RESERVED_HTTP2_SETTINGS@;
    assert(types[0] == 2 && types[1] == 6 && types[2] == 8 && types[3] == 9);
    assert(settings[0] == 0 && settings[1] == 2 && settings[2] == 3 && settings[3] == 4
        && settings[4] == 5);
}

/// A frame header is a type and a length, in whatever lengths the two integers
/// come, and whatever follows them.
pub proof fn frame_headers_are_read(
    kind_bytes: Seq<u8>,
    kind: nat,
    length_bytes: Seq<u8>,
    length: nat,
    rest: Seq<u8>,
)
    requires
        spells(kind_bytes, kind),
        spells(length_bytes, length),
    ensures
        frame_header(kind_bytes + length_bytes + rest) == Some(
            (kind as u64, length as u64, kind_bytes.len() + length_bytes.len()),
        ),
{
    let bytes = kind_bytes + length_bytes + rest;
    assert(bytes =~= kind_bytes + (length_bytes + rest));
    integers_are_read(kind_bytes, kind, length_bytes + rest);
    assert(bytes.subrange(kind_bytes.len() as int, bytes.len() as int) =~= length_bytes + rest);
    integers_are_read(length_bytes, length, rest);
}

/// A type that HTTP/3 withholds closes the connection on every stream, whatever the
/// length.
pub proof fn withheld_types_are_refused(stream: StreamKind, kind: u64, length: u64)
    requires
        is_withheld(kind as nat),
    ensures
        announced(stream, kind, length) matches Err(fault) && is_unexpected(fault),
{
    lemma_withheld(kind);
}

/// A type that HTTP/3 neither defines nor withholds is skipped on every stream,
/// whatever the length.
pub proof fn unknown_types_are_skipped(stream: StreamKind, kind: u64, length: u64)
    requires
        kind != 0,
        !is_defined(kind as nat),
        !is_withheld(kind as nat),
    ensures
        announced(stream, kind, length) == Ok::<State, Fault>(
            State::Skipping { kind, remaining: length },
        ),
{
    lemma_withheld(kind);
}

/// DATA is handed out on every stream, whatever the length.
pub proof fn data_is_handed_out(stream: StreamKind, length: u64)
    ensures
        announced(stream, 0, length) == Ok::<State, Fault>(State::Data { remaining: length }),
{
    lemma_withheld(0);
}

/// The other types that HTTP/3 defines are read whole on a control stream, HEADERS
/// alone on a request stream, and none in a tunnel: there they close the
/// connection. What is read whole may be up to 65536 bytes long.
pub proof fn defined_types_have_their_streams(stream: StreamKind, kind: u64, length: u64)
    requires
        is_defined(kind as nat),
    ensures
        ({
            let belongs = stream is Control || (stream is Request && kind == 1);
            &&& belongs && length <= 65536 ==> announced(stream, kind, length) == Ok::<
                State,
                Fault,
            >(State::Buffering { kind, remaining: length as usize })
            &&& belongs && length > 65536 ==> (announced(stream, kind, length) matches Err(fault)
                && is_too_large(fault))
            &&& !belongs ==> (announced(stream, kind, length) matches Err(fault) && is_unexpected(
                fault,
            ))
        }),
{
    lemma_withheld(kind);
}

proof fn lemma_at_boundary(
    decoder: DecoderView,
    kind_bytes: Seq<u8>,
    kind: nat,
    length_bytes: Seq<u8>,
    length: nat,
    rest: Seq<u8>,
)
    requires
        decoder.well_formed(),
        at_boundary(decoder),
        spells(kind_bytes, kind),
        spells(length_bytes, length),
        decoder.chunk == kind_bytes + length_bytes + rest,
    ensures
        frame_header(decoder.header + decoder.chunk) == Some(
            (kind as u64, length as u64, kind_bytes.len() + length_bytes.len()),
        ),
        past_header(decoder, kind_bytes.len() + length_bytes.len()) == fed(decoder, rest),
{
    frame_headers_are_read(kind_bytes, kind, length_bytes, length, rest);
    let bytes = decoder.header + decoder.chunk;
    assert(bytes =~= decoder.chunk);
    assert(bytes.subrange(
        (kind_bytes.len() + length_bytes.len()) as int,
        bytes.len() as int,
    ) =~= rest);
    assert(decoder.header =~= Seq::<u8>::empty());
}

/// A whole DATA frame comes out as the bytes it holds, on every stream.
pub proof fn whole_data_frames_are_read(
    decoder: DecoderView,
    held: nat,
    kind_bytes: Seq<u8>,
    length_bytes: Seq<u8>,
    data: Seq<u8>,
    rest: Seq<u8>,
)
    requires
        decoder.well_formed(),
        at_boundary(decoder),
        spells(kind_bytes, 0),
        spells(length_bytes, data.len()),
        decoder.chunk == kind_bytes + length_bytes + (data + rest),
    ensures
        next_step(decoder, held) == (Step {
            decoder: fed(decoder, rest),
            held,
            outcome: Ok(Some(ItemView::Data(data))),
        }),
{
    lemma_at_boundary(decoder, kind_bytes, 0, length_bytes, data.len(), data + rest);
    integers_are_read(length_bytes, data.len(), Seq::empty());
    data_is_handed_out(decoder.stream, data.len() as u64);
    assert((data + rest).subrange(0, data.len() as int) =~= data);
    assert((data + rest).subrange(data.len() as int, (data + rest).len() as int) =~= rest);
}

/// A whole frame of an unknown type is skipped, however long it is and whatever the
/// budget holds.
pub proof fn whole_unknown_frames_are_skipped(
    decoder: DecoderView,
    held: nat,
    kind_bytes: Seq<u8>,
    kind: nat,
    length_bytes: Seq<u8>,
    payload: Seq<u8>,
    rest: Seq<u8>,
)
    requires
        decoder.well_formed(),
        at_boundary(decoder),
        spells(kind_bytes, kind),
        spells(length_bytes, payload.len()),
        kind != 0,
        !is_defined(kind),
        !is_withheld(kind),
        decoder.chunk == kind_bytes + length_bytes + (payload + rest),
    ensures
        next_step(decoder, held) == (Step {
            decoder: fed(decoder, rest),
            held,
            outcome: Ok(Some(ItemView::Skipped { kind: kind as u64 })),
        }),
{
    lemma_at_boundary(decoder, kind_bytes, kind, length_bytes, payload.len(), payload + rest);
    integers_are_read(length_bytes, payload.len(), Seq::empty());
    integers_are_read(kind_bytes, kind, Seq::empty());
    unknown_types_are_skipped(decoder.stream, kind as u64, payload.len() as u64);
    assert((payload + rest).subrange(payload.len() as int, (payload + rest).len() as int)
        =~= rest);
}

/// Whether a frame belongs on a stream and has to be read whole there.
pub open spec fn is_read_whole(stream: StreamKind, kind: nat) -> bool {
    is_defined(kind) && (stream is Control || (stream is Request && kind == 1))
}

/// A whole frame that is read whole comes out as what its payload makes it, where
/// the budget has room for it, and gives back what it took. Past the budget it is
/// too large.
pub proof fn whole_frames_are_read(
    decoder: DecoderView,
    held: nat,
    kind_bytes: Seq<u8>,
    kind: nat,
    length_bytes: Seq<u8>,
    payload: Seq<u8>,
    rest: Seq<u8>,
)
    requires
        decoder.well_formed(),
        at_boundary(decoder),
        spells(kind_bytes, kind),
        spells(length_bytes, payload.len()),
        is_read_whole(decoder.stream, kind),
        payload.len() <= 65536,
        decoder.chunk == kind_bytes + length_bytes + (payload + rest),
    ensures
        held + payload.len() <= 1048576 ==> next_step(decoder, held) == (Step {
            decoder: fed(decoder, rest),
            held,
            outcome: match parsed(kind as u64, payload) {
                Ok(frame) => Ok(Some(ItemView::Frame(frame))),
                Err(fault) => Err(fault),
            },
        }),
        held + payload.len() > 1048576 ==> next_step(decoder, held).held == held && (next_step(
            decoder,
            held,
        ).outcome matches Err(fault) && is_too_large(fault)),
{
    lemma_at_boundary(decoder, kind_bytes, kind, length_bytes, payload.len(), payload + rest);
    integers_are_read(length_bytes, payload.len(), Seq::empty());
    integers_are_read(kind_bytes, kind, Seq::empty());
    defined_types_have_their_streams(decoder.stream, kind as u64, payload.len() as u64);
    assert(decoder.payload =~= Seq::<u8>::empty());
    assert((payload + rest).subrange(0, payload.len() as int) =~= payload);
    assert(Seq::<u8>::empty() + payload =~= payload);
    assert((payload + rest).subrange(payload.len() as int, (payload + rest).len() as int)
        =~= rest);
    assert(released(held + payload.len(), payload.len()) == held);
}

/// What each frame that is read whole is: HEADERS its payload as it is, SETTINGS
/// what they say, GOAWAY, CANCEL_PUSH and MAX_PUSH_ID the one integer they hold, in
/// whatever length, and PUSH_PROMISE itself.
pub proof fn payloads_are_read(payload: Seq<u8>, id: nat)
    ensures
        parsed(1, payload) == Ok::<FrameView, Fault>(FrameView::Headers(payload)),
        parsed(5, payload) == Ok::<FrameView, Fault>(FrameView::PushPromise),
        settings_of(payload) matches Ok(settings) ==> parsed(4, payload) == Ok::<FrameView, Fault>(
            FrameView::Settings(settings),
        ),
        settings_of(payload) matches Err(fault) ==> parsed(4, payload) == Err::<FrameView, Fault>(
            fault,
        ),
        spells(payload, id) ==> parsed(7, payload) == Ok::<FrameView, Fault>(
            FrameView::Goaway(id as u64),
        ) && parsed(3, payload) == Ok::<FrameView, Fault>(FrameView::CancelPush(id as u64))
            && parsed(13, payload) == Ok::<FrameView, Fault>(FrameView::MaxPushId(id as u64)),
{
    if spells(payload, id) {
        integers_are_read(payload, id, Seq::empty());
        assert(payload + Seq::<u8>::empty() =~= payload);
    }
}

/// A GOAWAY, CANCEL_PUSH or MAX_PUSH_ID that holds less or more than one integer
/// closes the connection with H3_FRAME_ERROR.
pub proof fn one_integer_and_no_more(kind: u64, payload: Seq<u8>, id: nat, more: Seq<u8>)
    requires
        kind == 3 || kind == 7 || kind == 13,
    ensures
        cut_short(payload) ==> (parsed(kind, payload) matches Err(fault) && fault.fatal
            && fault.code == Code::H3_FRAME_ERROR),
        spells(payload, id) && more.len() > 0 ==> (parsed(kind, payload + more) matches Err(fault)
            && fault.fatal && fault.code == Code::H3_FRAME_ERROR),
{
    only_what_is_cut_short_is_not_read(payload);
    if spells(payload, id) {
        integers_are_read(payload, id, more);
    }
}

/// A stream may end between frames and nowhere else: one that has had a part of a
/// frame's header, or less of its payload than the header announced, is at no
/// boundary.
pub proof fn no_boundary_inside_a_frame(
    decoder: DecoderView,
    held: nat,
    kind_bytes: Seq<u8>,
    kind: nat,
    length_bytes: Seq<u8>,
    length: nat,
    part: Seq<u8>,
)
    requires
        decoder.well_formed(),
        at_boundary(decoder),
        ({
            ||| decoder.chunk == part && part.len() > 0 && cut_short(part)
            ||| decoder.chunk == kind_bytes + part && spells(kind_bytes, kind) && cut_short(part)
            ||| decoder.chunk == kind_bytes + length_bytes + part && spells(kind_bytes, kind)
                && spells(length_bytes, length) && part.len() < length && (kind == 0 || (!is_defined(
                kind,
            ) && !is_withheld(kind)) || (is_read_whole(decoder.stream, kind) && length <= 65536
                && held + length <= 1048576))
        }),
    ensures
        !at_boundary(next_step(decoder, held).decoder),
        next_step(decoder, held).outcome matches Ok(item) && match item {
            None => true,
            Some(ItemView::Data(data)) => kind == 0 && data == part && part.len() > 0,
            _ => false,
        },
        next_step(decoder, held).decoder.chunk.len() == 0,
{
    let bytes = decoder.header + decoder.chunk;
    assert(bytes =~= decoder.chunk);
    only_what_is_cut_short_is_not_read(part);
    if decoder.chunk == part && part.len() > 0 && cut_short(part) {
    } else if decoder.chunk == kind_bytes + part && spells(kind_bytes, kind) && cut_short(part) {
        integers_are_read(kind_bytes, kind, part);
        assert(bytes.subrange(kind_bytes.len() as int, bytes.len() as int) =~= part);
    } else {
        lemma_at_boundary(decoder, kind_bytes, kind, length_bytes, length, part);
        integers_are_read(length_bytes, length, Seq::empty());
        integers_are_read(kind_bytes, kind, Seq::empty());
        lemma_withheld(kind as u64);
        if is_defined(kind) {
            defined_types_have_their_streams(decoder.stream, kind as u64, length as u64);
        }
        assert(part.subrange(0, part.len() as int) =~= part);
    }
}

// ---------------------------------------------------------------------------
// SETTINGS
// ---------------------------------------------------------------------------

/// One setting on the wire.
pub struct SettingWire {
    /// The identifier's bytes.
    pub id_bytes: Seq<u8>,
    /// The identifier.
    pub id: nat,
    /// The value's bytes.
    pub value_bytes: Seq<u8>,
    /// The value.
    pub value: nat,
}

/// Whether the bytes of each setting are its identifier and its value.
pub open spec fn all_spelled(wires: Seq<SettingWire>) -> bool {
    forall|i: int|
        0 <= i < wires.len() ==> spells((#[trigger] wires[i]).id_bytes, wires[i].id) && spells(
            wires[i].value_bytes,
            wires[i].value,
        )
}

/// Settings, one behind the other.
pub open spec fn settings_wire(wires: Seq<SettingWire>) -> Seq<u8>
    decreases wires.len(),
{
    if wires.len() == 0 {
        Seq::empty()
    } else {
        wires[0].id_bytes + wires[0].value_bytes + settings_wire(wires.drop_first())
    }
}

/// Whether settings may stand together: no identifier that HTTP/2 used, none twice,
/// and a datagram setting of zero or one.
pub open spec fn settings_allowed(wires: Seq<SettingWire>) -> bool {
    &&& forall|i: int|
        0 <= i < wires.len() ==> (#[trigger] wires[i]).id != 0 && wires[i].id != 2 && wires[i].id
            != 3 && wires[i].id != 4 && wires[i].id != 5 && (wires[i].id == 0x33 ==> wires[i].value
            <= 1)
    &&& forall|i: int, j: int|
        0 <= i < j < wires.len() ==> (#[trigger] wires[i]).id != (#[trigger] wires[j]).id
}

spec fn listed(wires: Seq<SettingWire>) -> Seq<(u64, u64)> {
    wires.map_values(|wire: SettingWire| (wire.id as u64, wire.value as u64))
}

proof fn lemma_settings_read(wires: Seq<SettingWire>, tail: Seq<u8>)
    requires
        all_spelled(wires),
        varint_pair(tail) is None,
    ensures
        setting_pairs(settings_wire(wires) + tail) == listed(wires),
        settings_whole(settings_wire(wires) + tail) <==> tail.len() == 0,
    decreases wires.len(),
{
    let bytes = settings_wire(wires) + tail;
    if wires.len() == 0 {
        assert(bytes =~= tail);
        assert(listed(wires) =~= Seq::<(u64, u64)>::empty());
        assert(setting_pairs(bytes) =~= Seq::<(u64, u64)>::empty());
    } else {
        let wire = wires[0];
        let later = wires.drop_first();
        let rest = settings_wire(later) + tail;
        assert(bytes =~= wire.id_bytes + wire.value_bytes + rest);
        frame_headers_are_read(wire.id_bytes, wire.id, wire.value_bytes, wire.value, rest);
        let used = wire.id_bytes.len() + wire.value_bytes.len();
        assert(bytes.subrange(used as int, bytes.len() as int) =~= rest);
        assert(all_spelled(later)) by {
            assert forall|i: int| 0 <= i < later.len() implies spells(
                (#[trigger] later[i]).id_bytes,
                later[i].id,
            ) && spells(later[i].value_bytes, later[i].value) by {
                assert(later[i] == wires[i + 1]);
            }
        }
        lemma_settings_read(later, tail);
        assert(listed(wires) =~= seq![(wire.id as u64, wire.value as u64)] + listed(later));
    }
}

proof fn lemma_setting_faults(pairs: Seq<(u64, u64)>, count: nat)
    requires
        count <= pairs.len(),
    ensures
        first_setting_fault(pairs, count) is None <==> forall|i: int|
            0 <= i < count ==> #[trigger] setting_fault(pairs, i) is None,
        first_setting_fault(pairs, count) matches Some(fault) ==> fault.fatal && fault.code
            == Code::H3_SETTINGS_ERROR,
    decreases count,
{
    if count > 0 {
        lemma_setting_faults(pairs, (count - 1) as nat);
    }
}

/// SETTINGS are read as the settings they hold, in whatever lengths their integers
/// come: accepted exactly where these may stand together, whatever else they are,
/// with datagrams on exactly where the datagram setting is one.
pub proof fn settings_are_read(wires: Seq<SettingWire>)
    requires
        all_spelled(wires),
    ensures
        settings_of(settings_wire(wires)) is Ok <==> settings_allowed(wires),
        settings_of(settings_wire(wires)) matches Ok(settings) ==> (settings.datagrams <==> exists|
            i: int,
        |
            0 <= i < wires.len() && (#[trigger] wires[i]).id == 0x33 && wires[i].value == 1),
        settings_of(settings_wire(wires)) matches Err(fault) ==> fault.fatal && fault.code
            == Code::H3_SETTINGS_ERROR,
{
    let payload = settings_wire(wires);
    let pairs = listed(wires);
    assert(payload + Seq::<u8>::empty() =~= payload);
    lemma_settings_read(wires, Seq::empty());
    lemma_setting_faults(pairs, pairs.len());
    assert forall|i: int| 0 <= i < wires.len() implies (#[trigger] wires[i]).id <= VARINT_MAX
        && wires[i].value <= VARINT_MAX && pairs[i] == (
        wires[i].id as u64,
        wires[i].value as u64,
    ) by {
        integers_are_read(wires[i].id_bytes, wires[i].id, Seq::empty());
        integers_are_read(wires[i].value_bytes, wires[i].value, Seq::empty());
    }
    assert forall|i: int| 0 <= i < wires.len() implies (reserved_setting(#[trigger] pairs[i].0)
        <==> (pairs[i].0 == 0 || 2 <= pairs[i].0 <= 5)) by {
        lemma_withheld(pairs[i].0);
    }
    if settings_allowed(wires) {
        assert forall|i: int| 0 <= i < pairs.len() implies #[trigger] setting_fault(
            pairs,
            i,
        ) is None by {
            assert(wires[i].id != 0);
            assert forall|j: int| 0 <= j < i implies #[trigger] pairs[j].0 != pairs[i].0 by {
                assert(wires[j].id != wires[i].id);
            }
        }
    }
    if first_setting_fault(pairs, pairs.len()) is None {
        assert forall|i: int| 0 <= i < wires.len() implies (#[trigger] wires[i]).id != 0
            && wires[i].id != 2 && wires[i].id != 3 && wires[i].id != 4 && wires[i].id != 5 && (
        wires[i].id == 0x33 ==> wires[i].value <= 1) by {
            assert(setting_fault(pairs, i) is None);
        }
        assert forall|i: int, j: int| 0 <= i < j < wires.len() implies (#[trigger] wires[i]).id != (
        #[trigger] wires[j]).id by {
            assert(setting_fault(pairs, j) is None);
            assert(pairs[i].0 == wires[i].id && pairs[j].0 == wires[j].id);
        }
        if exists|i: int|
            0 <= i < wires.len() && (#[trigger] wires[i]).id == 0x33 && wires[i].value == 1 {
            let i = choose|i: int|
                0 <= i < wires.len() && (#[trigger] wires[i]).id == 0x33 && wires[i].value == 1;
            assert(pairs[i] == (0x33u64, 1u64));
        }
    }
}

/// SETTINGS that end in the middle of a setting close the connection with
/// H3_FRAME_ERROR, where those before it may stand together.
pub proof fn settings_cut_short_are_refused(wires: Seq<SettingWire>, id_bytes: Seq<u8>, id: nat, tail: Seq<u8>)
    requires
        all_spelled(wires),
        settings_allowed(wires),
        tail.len() > 0 && cut_short(tail) && id_bytes.len() == 0 || (spells(id_bytes, id)
            && cut_short(tail)),
    ensures
        settings_of(settings_wire(wires) + (id_bytes + tail)) matches Err(fault) && fault.fatal
            && fault.code == Code::H3_FRAME_ERROR,
{
    let rest = id_bytes + tail;
    if id_bytes.len() == 0 {
        assert(rest =~= tail);
        only_what_is_cut_short_is_not_read(tail);
    } else {
        integers_are_read(id_bytes, id, tail);
        assert(rest.subrange(id_bytes.len() as int, rest.len() as int) =~= tail);
        only_what_is_cut_short_is_not_read(tail);
    }
    lemma_settings_read(wires, rest);
    settings_are_read(wires);
    let payload = settings_wire(wires);
    assert(payload + Seq::<u8>::empty() =~= payload);
    lemma_settings_read(wires, Seq::empty());
    assert(setting_pairs(payload) == setting_pairs(payload + rest));
}

proof fn lemma_pairs_listed(pairs: Seq<(u64, u64)>, i: int)
    requires
        0 <= i < pairs.len(),
    ensures
        pairs.contains(pairs[i]),
{
}

/// What this server says of itself: no dynamic table, field sections of up to 65536
/// bytes, extended CONNECT and datagrams.
pub proof fn what_is_advertised()
    ensures
        advertised().contains((0x01u64, 0u64)),
        advertised().contains((0x07u64, 0u64)),
        advertised().contains((0x06u64, 65536u64)),
        advertised().contains((0x08u64, 1u64)),
        advertised().contains((0x33u64, 1u64)),
        forall|i: int, j: int|
            0 <= i < j < advertised().len() ==> (#[trigger] advertised()[i]).0 != (
            #[trigger] advertised()[j]).0,
{
    let pairs = advertised();
    lemma_pairs_listed(pairs, 0);
    lemma_pairs_listed(pairs, 1);
    lemma_pairs_listed(pairs, 2);
    lemma_pairs_listed(pairs, 3);
    lemma_pairs_listed(pairs, 4);
}

// ---------------------------------------------------------------------------
// Reading a request, and a tunnel
// ---------------------------------------------------------------------------

/// A request stream is what its first HEADERS frame makes it, behind any number of
/// frames of unknown types.
pub proof fn a_request_is_its_headers(
    decoder: DecoderView,
    held: nat,
    finished: bool,
    kind_bytes: Seq<u8>,
    kind: nat,
    length_bytes: Seq<u8>,
    payload: Seq<u8>,
    rest: Seq<u8>,
)
    requires
        decoder.well_formed(),
        at_boundary(decoder),
        decoder.stream is Request,
        spells(kind_bytes, kind),
        spells(length_bytes, payload.len()),
        decoder.chunk == kind_bytes + length_bytes + (payload + rest),
    ensures
        kind != 0 && !is_defined(kind) && !is_withheld(kind) ==> request_reading(
            decoder,
            held,
            finished,
        ) == request_reading(fed(decoder, rest), held, finished),
        kind == 1 && payload.len() <= 65536 && held + payload.len() <= 1048576 ==> request_reading(
            decoder,
            held,
            finished,
        ) == (Reading {
            decoder: fed(decoder, rest),
            held,
            outcome: match request_of_block(payload) {
                Ok(request) => Ok(Some(request)),
                Err(fault) => Err(fault),
            },
        }),
        kind == 1 && (payload.len() > 65536 || held + payload.len() > 1048576) ==> (request_reading(
            decoder,
            held,
            finished,
        ).outcome matches Err(fault) && is_too_large(fault)),
        kind != 1 && (kind == 0 || is_defined(kind) || is_withheld(kind)) ==> (request_reading(
            decoder,
            held,
            finished,
        ).outcome matches Err(fault) && is_unexpected(fault)),
{
    integers_are_read(length_bytes, payload.len(), Seq::empty());
    integers_are_read(kind_bytes, kind, Seq::empty());
    lemma_at_boundary(decoder, kind_bytes, kind, length_bytes, payload.len(), payload + rest);
    lemma_withheld(kind as u64);
    if kind == 0 {
        whole_data_frames_are_read(decoder, held, kind_bytes, length_bytes, payload, rest);
    } else if kind == 1 {
        defined_types_have_their_streams(decoder.stream, 1, payload.len() as u64);
        if payload.len() <= 65536 {
            whole_frames_are_read(decoder, held, kind_bytes, 1, length_bytes, payload, rest);
        }
    } else if is_defined(kind) {
        defined_types_have_their_streams(decoder.stream, kind as u64, payload.len() as u64);
    } else if !is_withheld(kind) {
        whole_unknown_frames_are_skipped(
            decoder,
            held,
            kind_bytes,
            kind,
            length_bytes,
            payload,
            rest,
        );
        assert(rest.len() < decoder.chunk.len());
    }
}

/// A request stream with nothing to read waits, or is incomplete where it has
/// ended.
pub proof fn a_request_needs_its_headers(decoder: DecoderView, held: nat, finished: bool)
    requires
        decoder.well_formed(),
        at_boundary(decoder),
        decoder.chunk.len() == 0,
    ensures
        !finished ==> request_reading(decoder, held, finished).outcome == Ok::<
            Option<RequestView>,
            Fault,
        >(None),
        finished ==> (request_reading(decoder, held, finished).outcome matches Err(fault)
            && !fault.fatal && fault.code == Code::H3_REQUEST_INCOMPLETE),
{
    assert(decoder.header + decoder.chunk =~= Seq::<u8>::empty());
}

/// A field section is a request where it decodes, within 65536 bytes, to lines that
/// are one.
pub proof fn a_block_is_its_section(block: Seq<u8>)
    ensures
        section_fields(block, 65536) matches Ok(section) ==> request_of_block(block) == request_of(
            section,
        ),
        section_fields(block, 65536) matches Err(fault) ==> request_of_block(block) == Err::<
            RequestView,
            Fault,
        >(fault),
{
}

/// In a tunnel DATA is handed out, empty DATA and frames of unknown types are passed
/// over, and every other frame closes the connection.
pub proof fn a_tunnel_is_its_data(
    decoder: DecoderView,
    held: nat,
    finished: bool,
    kind_bytes: Seq<u8>,
    kind: nat,
    length_bytes: Seq<u8>,
    payload: Seq<u8>,
    rest: Seq<u8>,
)
    requires
        decoder.well_formed(),
        at_boundary(decoder),
        decoder.stream is Tunnel,
        spells(kind_bytes, kind),
        spells(length_bytes, payload.len()),
        decoder.chunk == kind_bytes + length_bytes + (payload + rest),
    ensures
        kind == 0 && payload.len() > 0 ==> receiving(decoder, held, finished) == (Receiving {
            decoder: fed(decoder, rest),
            held,
            outcome: Ok(ReceivedView::Data(payload)),
        }),
        (kind == 0 && payload.len() == 0) || (kind != 0 && !is_defined(kind) && !is_withheld(kind))
            ==> receiving(decoder, held, finished) == receiving(
            fed(decoder, rest),
            held,
            finished,
        ),
        is_defined(kind) || is_withheld(kind) ==> (receiving(
            decoder,
            held,
            finished,
        ).outcome matches Err(fault) && is_unexpected(fault)),
{
    integers_are_read(length_bytes, payload.len(), Seq::empty());
    integers_are_read(kind_bytes, kind, Seq::empty());
    lemma_at_boundary(decoder, kind_bytes, kind, length_bytes, payload.len(), payload + rest);
    lemma_withheld(kind as u64);
    if kind == 0 {
        whole_data_frames_are_read(decoder, held, kind_bytes, length_bytes, payload, rest);
        assert(rest.len() < decoder.chunk.len());
    } else if is_defined(kind) {
        defined_types_have_their_streams(decoder.stream, kind as u64, payload.len() as u64);
    } else if !is_withheld(kind) {
        whole_unknown_frames_are_skipped(
            decoder,
            held,
            kind_bytes,
            kind,
            length_bytes,
            payload,
            rest,
        );
        assert(rest.len() < decoder.chunk.len());
    }
}

/// A tunnel with nothing to read waits, or is over where the peer has finished.
pub proof fn a_tunnel_ends_with_its_stream(decoder: DecoderView, held: nat, finished: bool)
    requires
        decoder.well_formed(),
        at_boundary(decoder),
        decoder.chunk.len() == 0,
    ensures
        receiving(decoder, held, finished).outcome == Ok::<ReceivedView, Fault>(
            if finished {
                ReceivedView::End
            } else {
                ReceivedView::Read
            },
        ),
{
    assert(decoder.header + decoder.chunk =~= Seq::<u8>::empty());
}

// ---------------------------------------------------------------------------
// Answering
// ---------------------------------------------------------------------------

/// A status is written as the three decimal digits of its number.
pub proof fn statuses_are_decimal(number: u16)
    requires
        100 <= number <= 999,
    ensures
        three_digits(number).len() == 3,
        forall|i: int| 0 <= i < 3 ==> 0x30 <= #[trigger] three_digits(number)[i] <= 0x39,
        (three_digits(number)[0] - 0x30) * 100 + (three_digits(number)[1] - 0x30) * 10 + (
        three_digits(number)[2] - 0x30) == number,
{
    let digits = three_digits(number);
    assert(digits[0] == (0x30 + number / 100) as u8);
    assert(digits[1] == (0x30 + number / 10 % 10) as u8);
    assert(digits[2] == (0x30 + number % 10) as u8);
}

/// A response is its status and then each field given: the block that is written
/// decodes to one line more than there are fields, the status first and every field
/// behind it, in order and as it was given.
pub proof fn responses_carry_every_field(status: Status, fields: Seq<FieldBytes>)
    requires
        counted_size(response_fields(status, fields)) <= 65536,
    ensures
        ({
            let block = section_bytes(response_fields(status, fields));
            &&& section_fields(block, 65536) matches Ok(lines) && lines.len() == 1 + fields.len()
                && lines[0].0 == encode_utf8(":status"@) && lines[0].1 == three_digits(
                status.number(),
            ) && forall|i: int| 0 <= i < fields.len() ==> #[trigger] lines[i + 1] == fields[i]
        }),
{
    let lines = response_fields(status, fields);
    lemma_same_size(lines);
    crate::h3::qpack_laws::section_round_trip(lines, 65536);
}

proof fn lemma_same_size(fields: Seq<FieldBytes>)
    ensures
        crate::h3::qpack_laws::section_size(fields) == counted_size(fields),
    decreases fields.len(),
{
    if fields.len() > 0 {
        lemma_same_size(fields.drop_first());
    }
}

/// What a response counts for: its status, and each field.
pub proof fn responses_count_for_their_fields(status: Status, fields: Seq<FieldBytes>)
    ensures
        counted_size(response_fields(status, fields)) == 7 + 3 + 32 + counted_size(fields),
{
    reveal_strlit(":status");
    vstd::utf8::is_ascii_chars_encode_utf8(":status"@);
    let lines = response_fields(status, fields);
    assert(lines.drop_first() =~= fields);
    assert(lines[0].0.len() == 7 && lines[0].1.len() == 3);
}

/// A frame that this server writes is its type and its length, and spells both.
pub proof fn written_headers_are_spelled(kind: u64, length: u64) -> (at: int)
    requires
        kind <= VARINT_MAX,
        length <= VARINT_MAX,
    ensures
        0 <= at <= header_bytes(kind, length).len(),
        spells(header_bytes(kind, length).subrange(0, at), kind as nat),
        spells(
            header_bytes(kind, length).subrange(at, header_bytes(kind, length).len() as int),
            length as nat,
        ),
{
    let first = crate::datagram::varint_bytes(kind);
    let second = crate::datagram::varint_bytes(length);
    written_integers_are_spelled(kind);
    written_integers_are_spelled(length);
    let bytes = header_bytes(kind, length);
    let at = first.len() as int;
    assert(bytes.subrange(0, at) =~= first);
    assert(bytes.subrange(at, bytes.len() as int) =~= second);
    at
}

/// A field section that is too large is answered with a 431, whatever found it so.
/// Any other fault closes the connection where it is the connection's, and ends the
/// stream where it is not.
pub proof fn faults_are_answered_by_their_reach(fault: Fault)
    ensures
        fault.field_section ==> (reaction_to(fault) matches Reaction::Respond(status)
            && status.number() == 431),
        !fault.field_section && fault.fatal ==> reaction_to(fault) is Close,
        !fault.field_section && !fault.fatal ==> reaction_to(fault) is Abandon,
{
}

/// Inside a DATA frame a tunnel hands out what has arrived of it, up to the frame's
/// end, and leaves the rest.
pub proof fn a_tunnel_goes_on_inside_a_frame(
    decoder: DecoderView,
    held: nat,
    finished: bool,
    remaining: u64,
)
    requires
        decoder.well_formed(),
        decoder.state == (State::Data { remaining }),
        decoder.chunk.len() > 0,
    ensures
        ({
            let taken = if remaining <= decoder.chunk.len() {
                remaining as int
            } else {
                decoder.chunk.len() as int
            };
            let received = receiving(decoder, held, finished);
            &&& received.outcome == Ok::<ReceivedView, Fault>(
                ReceivedView::Data(decoder.chunk.subrange(0, taken)),
            )
            &&& received.decoder.chunk == decoder.chunk.subrange(
                taken,
                decoder.chunk.len() as int,
            )
            &&& received.held == held
            &&& at_boundary(received.decoder) <==> taken == remaining
        }),
{
}

} // verus!
