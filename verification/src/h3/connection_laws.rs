//! What a connection does with what its peer sends, case by case.

use vstd::arithmetic::power2::{is_pow2, is_pow2_equiv, lemma_pow2, pow2};
use vstd::prelude::*;

use crate::datagram::{DatagramView, VARINT_MAX, datagram_of};
use crate::datagram_wire::{datagrams_are_read, spells};
use crate::h3::connection::{
    ControlView, DropKind, QpackProgress, QpackRead, QpackStream, SharedView, StreamRole,
    control_fault, counted, first_unserved, instruction, opened, opening_fault, promised, role_of,
    served, qpack_fault, sampled, settled, wire_code,
};
use crate::h3::error::{Code, ConnectionError, Fault, StreamError, TransportError};
use crate::h3::frame::{Error, FrameView, Item, ItemView, Settings};
use crate::h3::message::Status;
use crate::h3::qpack_wire::continued;
use crate::h3api::{BenignClose, goodbye};

verus! {

// ---------------------------------------------------------------------------
// Datagrams
// ---------------------------------------------------------------------------

/// A UDP payload for a session with room for it is delivered, whatever it is. It
/// is dropped exactly where it is of another context, for no session, or for one
/// with sixty-four payloads waiting, and as that.
pub proof fn only_these_stop_a_datagram(shared: SharedView, datagram: DatagramView)
    ensures
        shared.obstacle(datagram) is None <==> datagram.context_id == 0
            && shared.sessions.contains_key(datagram.quarter_stream_id)
            && shared.sessions[datagram.quarter_stream_id].len() < 64,
        shared.obstacle(datagram) == Some(DropKind::UnknownContext) <==> datagram.context_id != 0,
        shared.obstacle(datagram) == Some(DropKind::Unroutable) <==> datagram.context_id == 0
            && !shared.sessions.contains_key(datagram.quarter_stream_id),
        shared.obstacle(datagram) == Some(DropKind::QueueFull) <==> datagram.context_id == 0
            && shared.sessions.contains_key(datagram.quarter_stream_id)
            && shared.sessions[datagram.quarter_stream_id].len() >= 64,
{
}

/// Delivering a payload to a session with room for it appends it to what waits
/// there, and changes nothing else.
pub proof fn delivery_appends(shared: SharedView, id: u64, payload: Seq<u8>)
    requires
        shared.sessions.contains_key(id),
        shared.sessions[id].len() < 64,
    ensures
        ({
            let datagram = DatagramView { quarter_stream_id: id, context_id: 0, payload };
            let later = shared.delivering(datagram);
            &&& later.sessions.dom() == shared.sessions.dom()
            &&& later.sessions[id].len() == shared.sessions[id].len() + 1
            &&& later.sessions[id].last() == payload
            &&& later.sessions[id].drop_last() == shared.sessions[id]
            &&& forall|other: u64|
                other != id ==> #[trigger] later.sessions[other] == shared.sessions[other]
            &&& later == (SharedView { sessions: later.sessions, ..shared })
        }),
{
    let datagram = DatagramView { quarter_stream_id: id, context_id: 0, payload };
    let later = shared.delivering(datagram);
    assert(later.sessions.dom() =~= shared.sessions.dom());
    assert(later.sessions[id].drop_last() =~= shared.sessions[id]);
}

/// The connection once these payloads have arrived for one session, one by one.
pub open spec fn arriving(shared: SharedView, id: u64, payloads: Seq<Seq<u8>>) -> SharedView
    decreases payloads.len(),
{
    if payloads.len() == 0 {
        shared
    } else {
        arriving(shared, id, payloads.drop_last()).delivering(
            DatagramView { quarter_stream_id: id, context_id: 0, payload: payloads.last() },
        )
    }
}

/// Payloads for a session wait in the order they came in, each as it was sent, as
/// long as there is room: none is dropped.
pub proof fn payloads_wait_in_order(shared: SharedView, id: u64, payloads: Seq<Seq<u8>>)
    requires
        shared.sessions.contains_key(id),
        shared.sessions[id].len() + payloads.len() <= 64,
    ensures
        arriving(shared, id, payloads).sessions.contains_key(id),
        arriving(shared, id, payloads).sessions[id] == shared.sessions[id] + payloads,
        arriving(shared, id, payloads).dropped == shared.dropped,
    decreases payloads.len(),
{
    if payloads.len() == 0 {
        assert(shared.sessions[id] + payloads =~= shared.sessions[id]);
    } else {
        let before = payloads.drop_last();
        payloads_wait_in_order(shared, id, before);
        delivery_appends(arriving(shared, id, before), id, payloads.last());
        let now = arriving(shared, id, payloads).sessions[id];
        assert(now =~= now.drop_last().push(now.last()));
        assert(shared.sessions[id] + payloads =~= (shared.sessions[id] + before).push(
            payloads.last(),
        ));
    }
}

/// A QUIC datagram that starts with a claimed Quarter Stream ID and a Context ID of
/// zero, in whatever lengths, is delivered with all that follows them.
pub proof fn quic_datagrams_are_delivered(
    shared: SharedView,
    id_bytes: Seq<u8>,
    id: u64,
    context_bytes: Seq<u8>,
    payload: Seq<u8>,
)
    requires
        spells(id_bytes, id as nat),
        spells(context_bytes, 0),
        4 * id <= VARINT_MAX,
        shared.sessions.contains_key(id),
        shared.sessions[id].len() < 64,
    ensures
        datagram_of(id_bytes + context_bytes + payload) matches Ok(decoded) && shared.obstacle(
            decoded,
        ) is None && shared.delivering(decoded).sessions[id] == shared.sessions[id].push(payload),
{
    datagrams_are_read(id_bytes, id as nat, context_bytes, 0, payload);
    let decoded = DatagramView { quarter_stream_id: id, context_id: 0, payload };
    only_these_stop_a_datagram(shared, decoded);
}

/// A drop is counted once in all and once under its kind, under no other, and
/// touches no queue.
pub proof fn drops_are_counted_by_kind(shared: SharedView, kind: DropKind, other: DropKind)
    requires
        shared.dropped < u64::MAX,
        shared.drops(kind) < u64::MAX,
    ensures
        shared.dropping(kind).dropped == shared.dropped + 1,
        shared.dropping(kind).drops(kind) == shared.drops(kind) + 1,
        other != kind ==> shared.dropping(kind).drops(other) == shared.drops(other),
        shared.dropping(kind).sessions == shared.sessions,
        shared.dropping(kind).local_error == shared.local_error,
        shared.dropping(kind).peer_datagrams == shared.peer_datagrams,
{
}

/// Of a run of occurrences the first is said aloud, and then each whose number is a
/// power of two, with that number.
pub proof fn powers_of_two_are_said_aloud(total: u64, k: nat)
    ensures
        total == pow2(k) ==> sampled(total) == Some(total),
        sampled(total) matches Some(said) ==> said == total && exists|e: nat| total == pow2(e),
        total < u64::MAX ==> counted(total) == total + 1,
{
    is_pow2_equiv(total as int);
    lemma_pow2(k);
    if is_pow2(total as int) {
        let e = choose|e: nat| vstd::arithmetic::power::pow(2, e) == total as int;
        lemma_pow2(e);
        assert(total == pow2(e));
    }
}

// ---------------------------------------------------------------------------
// Streams that the peer opens
// ---------------------------------------------------------------------------

/// A peer may open one control stream, one QPACK encoder stream and one QPACK
/// decoder stream, no push stream, and any number of others: what it may not is a
/// fault of the connection.
pub proof fn one_of_each_critical_stream(shared: SharedView, stream_type: u64)
    ensures
        opening_fault(shared, stream_type) is Some <==> (stream_type == 0 && shared.control_seen)
            || stream_type == 1 || (stream_type == 2 && shared.encoder_seen) || (stream_type == 3
            && shared.decoder_seen),
        opening_fault(shared, stream_type) matches Some(fault) ==> fault.fatal && fault.code
            == Code::H3_STREAM_CREATION_ERROR,
        opened(shared, stream_type).control_seen == (shared.control_seen || stream_type == 0),
        opened(shared, stream_type).encoder_seen == (shared.encoder_seen || stream_type == 2),
        opened(shared, stream_type).decoder_seen == (shared.decoder_seen || stream_type == 3),
        opened(shared, stream_type) == (SharedView {
            control_seen: opened(shared, stream_type).control_seen,
            encoder_seen: opened(shared, stream_type).encoder_seen,
            decoder_seen: opened(shared, stream_type).decoder_seen,
            ..shared
        }),
{
}

/// Whether an item may follow on a control stream that has had its SETTINGS.
pub open spec fn may_follow(control: ControlView, item: ItemView) -> bool {
    match item {
        ItemView::Skipped { kind: _ } => true,
        ItemView::Frame(FrameView::Goaway(id)) => control.goaway is None || id
            <= control.goaway->0,
        ItemView::Frame(FrameView::MaxPushId(id)) => control.max_push_id is None || id
            >= control.max_push_id->0,
        _ => false,
    }
}

/// Behind its SETTINGS a control stream may carry frames of unknown types, GOAWAYs
/// that do not grow and MAX_PUSH_IDs that do not shrink, and nothing else. Each is
/// remembered, and nothing else changes.
pub proof fn what_may_follow_settings(control: ControlView, item: ItemView)
    requires
        control.settings,
    ensures
        control.hearing(item) is Ok <==> may_follow(control, item),
        control.hearing(item) matches Err(fault) ==> fault.fatal && fault.code == (match item {
            ItemView::Frame(FrameView::Goaway(_)) => Code::H3_ID_ERROR,
            ItemView::Frame(FrameView::MaxPushId(_)) => Code::H3_ID_ERROR,
            ItemView::Frame(FrameView::CancelPush(_)) => Code::H3_ID_ERROR,
            _ => Code::H3_FRAME_UNEXPECTED,
        }),
        control.hearing(item) matches Ok(next) ==> next.settings && match item {
            ItemView::Frame(FrameView::Goaway(id)) => next.goaway == Some(id) && next.max_push_id
                == control.max_push_id && next.skipped == control.skipped,
            ItemView::Frame(FrameView::MaxPushId(id)) => next.max_push_id == Some(id)
                && next.goaway == control.goaway && next.skipped == control.skipped,
            _ => next.goaway == control.goaway && next.max_push_id == control.max_push_id
                && next.skipped == counted(control.skipped),
        },
{
}

/// A control stream starts with SETTINGS, whatever they say, or the connection is
/// closed with H3_MISSING_SETTINGS. Datagrams are on from the first SETTINGS that
/// turns them on, and from nothing else.
pub proof fn settings_turn_datagrams_on(
    shared: SharedView,
    control: ControlView,
    item: ItemView,
    settings: Settings,
)
    requires
        !control.settings,
    ensures
        control.hearing(ItemView::Frame(FrameView::Settings(settings))) matches Ok(next)
            && next.settings && next.goaway == control.goaway && next.max_push_id
            == control.max_push_id && next.skipped == control.skipped,
        !(item matches ItemView::Frame(FrameView::Settings(_))) ==> (control.hearing(
            item,
        ) matches Err(fault) && fault.fatal && fault.code == Code::H3_MISSING_SETTINGS),
        settled(shared, control, ItemView::Frame(FrameView::Settings(settings))).peer_datagrams
            == (shared.peer_datagrams || settings.datagrams),
        settled(shared, control, item) == (SharedView {
            peer_datagrams: settled(shared, control, item).peer_datagrams,
            ..shared
        }),
        !(item matches ItemView::Frame(FrameView::Settings(_))) ==> settled(shared, control, item)
            == shared,
        settled(shared, ControlView { settings: true, ..control }, item) == shared,
{
}

/// What is read from a control stream closes the connection where the stream ends
/// or is reset while the connection lives, or breaks a rule, and with that rule's
/// code.
pub proof fn a_control_stream_may_not_end(
    control: ControlView,
    violation: crate::h3::error::Violation,
    error: StreamError,
    lost: ConnectionError,
)
    requires
        !(error is Connection),
    ensures
        control_fault(control, Ok::<Option<Item>, Error>(None), true) is None,
        control_fault(control, Ok::<Option<Item>, Error>(None), false) matches Some(fault)
            && fault.fatal && fault.code == Code::H3_CLOSED_CRITICAL_STREAM,
        control_fault(
            control,
            Err::<Option<Item>, Error>(Error::Protocol(violation)),
            false,
        ) matches Some(fault) && fault.fatal && fault.code == violation@.code && fault.detail
            == violation@.detail,
        control_fault(
            control,
            Err::<Option<Item>, Error>(Error::Stream(error)),
            false,
        ) matches Some(fault) && fault.fatal && fault.code == Code::H3_CLOSED_CRITICAL_STREAM,
        control_fault(
            control,
            Err::<Option<Item>, Error>(Error::Stream(StreamError::Connection(lost))),
            false,
        ) is None,
{
}

/// The same of a QPACK stream.
pub proof fn a_qpack_stream_may_not_end(
    progress: QpackProgress,
    kind: QpackStream,
    error: crate::h3::error::TransferError,
    closed: bool,
)
    ensures
        closed ==> qpack_fault(progress, kind, QpackRead::Ended, closed) is None,
        closed ==> qpack_fault(progress, kind, QpackRead::Failed(error), closed) is None,
        !closed ==> (qpack_fault(progress, kind, QpackRead::Ended, closed) matches Some(fault)
            && fault.fatal && fault.code == Code::H3_CLOSED_CRITICAL_STREAM),
        !closed ==> (qpack_fault(progress, kind, QpackRead::Failed(error), closed) matches Some(
            fault,
        ) && fault.fatal && fault.code == Code::H3_CLOSED_CRITICAL_STREAM),
{
}

/// An encoder may set its table's capacity to zero and nothing else; a decoder may
/// cancel streams and nothing else.
pub proof fn the_only_instructions(first: u8)
    ensures
        instruction(QpackStream::Encoder, first) is Ok <==> first == 0x20,
        instruction(QpackStream::Encoder, 0x20) == Ok::<bool, Fault>(false),
        instruction(QpackStream::Decoder, first) is Ok <==> 0x40 <= first < 0x80,
        0x40 <= first < 0x80 ==> instruction(QpackStream::Decoder, first) == Ok::<bool, Fault>(
            first == 0x7f,
        ),
        instruction(QpackStream::Encoder, first) matches Err(fault) ==> fault.fatal && fault.code
            == Code::QPACK_ENCODER_STREAM_ERROR,
        instruction(QpackStream::Decoder, first) matches Err(fault) ==> fault.fatal && fault.code
            == Code::QPACK_DECODER_STREAM_ERROR,
{
}

proof fn lemma_continuation(progress: QpackProgress, tail: Seq<u8>)
    requires
        progress.continuing,
        continued(tail),
    ensures
        progress.continuation + tail.len() <= 9 ==> (progress.taking_all(
            QpackStream::Decoder,
            tail,
        ) matches Ok(next) && !next.continuing),
        progress.continuation + tail.len() > 9 ==> (progress.taking_all(
            QpackStream::Decoder,
            tail,
        ) matches Err(fault) && fault.fatal && fault.code == Code::QPACK_DECODER_STREAM_ERROR),
    decreases tail.len(),
{
    let later = tail.drop_first();
    if progress.continuation < 9 {
        let next = progress.taking(QpackStream::Decoder, tail[0])->Ok_0;
        if tail.len() == 1 {
            assert(later =~= Seq::<u8>::empty());
            assert(next.taking_all(QpackStream::Decoder, later) == Ok::<QpackProgress, Fault>(
                next,
            ));
        } else {
            assert(tail[0] >= 128);
            assert(continued(later)) by {
                assert(later.last() == tail.last());
                assert forall|i: int| 0 <= i < later.len() - 1 implies #[trigger] later[i]
                    >= 128 by {
                    assert(tail[i + 1] >= 128);
                }
            }
            lemma_continuation(next, later);
        }
    }
}

/// A cancelled stream's ID may take up to nine bytes behind its first, and a
/// longer one is refused.
pub proof fn cancellations_are_accepted(progress: QpackProgress, first: u8, tail: Seq<u8>)
    requires
        !progress.continuing,
        0x40 <= first <= 0x7f,
        if first == 0x7f {
            continued(tail)
        } else {
            tail.len() == 0
        },
    ensures
        tail.len() <= 9 ==> (progress.taking_all(
            QpackStream::Decoder,
            seq![first] + tail,
        ) matches Ok(next) && !next.continuing),
        tail.len() > 9 ==> (progress.taking_all(
            QpackStream::Decoder,
            seq![first] + tail,
        ) matches Err(fault) && fault.fatal && fault.code == Code::QPACK_DECODER_STREAM_ERROR),
{
    let bytes = seq![first] + tail;
    assert(bytes.drop_first() =~= tail);
    let next = progress.taking(QpackStream::Decoder, first)->Ok_0;
    if first == 0x7f {
        lemma_continuation(next, tail);
    } else {
        assert(next.taking_all(QpackStream::Decoder, tail) == Ok::<QpackProgress, Fault>(next));
    }
}

/// An encoder may set its capacity to zero as often as it likes.
pub proof fn zero_capacities_are_accepted(progress: QpackProgress, bytes: Seq<u8>)
    requires
        !progress.continuing,
        forall|i: int| 0 <= i < bytes.len() ==> #[trigger] bytes[i] == 0x20,
    ensures
        progress.taking_all(QpackStream::Encoder, bytes) matches Ok(next) && !next.continuing,
    decreases bytes.len(),
{
    if bytes.len() > 0 {
        let later = bytes.drop_first();
        assert(bytes[0] == 0x20);
        let next = progress.taking(QpackStream::Encoder, bytes[0])->Ok_0;
        assert forall|i: int| 0 <= i < later.len() implies #[trigger] later[i] == 0x20 by {
            assert(later[i] == bytes[i + 1]);
        }
        zero_capacities_are_accepted(next, later);
    }
}

// ---------------------------------------------------------------------------
// Going away, closing
// ---------------------------------------------------------------------------

/// A GOAWAY names the request behind the last that was accepted, four further on,
/// or the first of all; a later one the lower of that and the one before it.
pub proof fn goaway_names_the_next_request(last_accepted: Option<u64>, going_away: Option<u64>)
    ensures
        first_unserved(None) == 0,
        last_accepted matches Some(id) ==> first_unserved(last_accepted) == if id + 4
            <= 0x3fff_ffff_ffff_ffff {
            id + 4
        } else {
            0x3fff_ffff_ffff_ffff
        },
        going_away is None ==> promised(last_accepted, going_away) == first_unserved(
            last_accepted,
        ),
        going_away matches Some(sent) ==> {
            let next = promised(last_accepted, going_away);
            &&& next <= sent && next <= first_unserved(last_accepted)
            &&& next == sent || next == first_unserved(last_accepted)
        },
{
}

/// A close carries the number of its code, or the largest there is where the
/// number is larger.
pub proof fn closes_carry_their_codes(code: Code)
    ensures
        code.number() <= 0x3fff_ffff_ffff_ffff ==> wire_code(code) == code.number(),
        code.number() > 0x3fff_ffff_ffff_ffff ==> wire_code(code) == 0x3fff_ffff_ffff_ffff,
{
}

/// Recording a violation changes nothing but which is reported: the first.
pub proof fn recording_keeps_the_rest(shared: SharedView, fault: Fault)
    ensures
        shared.recording(fault) == (SharedView {
            local_error: shared.recording(fault).local_error,
            ..shared
        }),
        shared.local_error is None ==> shared.recording(fault).local_error == Some(fault),
        shared.local_error is Some ==> shared.recording(fault).local_error == shared.local_error,
        shared.first_fault(fault) == shared.recording(fault).local_error->0,
{
}

/// A connection error is an ordinary goodbye exactly where it is a timeout, a close
/// by the peer with zero or H3_NO_ERROR, or one by this server with H3_NO_ERROR.
pub proof fn which_goodbyes_are_ordinary(error: ConnectionError)
    ensures
        goodbye(error) == Some(BenignClose::PeerClosed) <==> (
        error matches ConnectionError::ApplicationClose { code } && (code.number() == 0
            || code.number() == 0x100)),
        goodbye(error) == Some(BenignClose::Idle) <==> error is Timeout || (
        error matches ConnectionError::Local(violation) && violation@.code.number() == 0x100),
{
}

/// A transport error is filed by its kind: a close of the peer's application under
/// its code, a timeout as such, and anything else as itself.
pub proof fn transport_errors_are_filed_by_kind(
    filed: ConnectionError,
    code: u64,
    reason: Vec<u8>,
    text: String,
)
    ensures
        filed.files(TransportError::ApplicationClosed { code, reason }) <==> (
        filed matches ConnectionError::ApplicationClose { code: named } && named.number() == code
            && named.well_formed()),
        filed.files(TransportError::TimedOut) <==> filed is Timeout,
        filed.files(TransportError::LocallyClosed) <==> filed == ConnectionError::Transport(
            TransportError::LocallyClosed,
        ),
        filed.files(TransportError::Other { text }) <==> filed == ConnectionError::Transport(
            TransportError::Other { text },
        ),
{
}

// ---------------------------------------------------------------------------
// Sessions
// ---------------------------------------------------------------------------

/// A claim on a free Quarter Stream ID starts with nothing waiting, one on a taken ID
/// changes nothing, and neither touches another session.
pub proof fn claims_are_exclusive(shared: SharedView, id: u64, other: u64)
    ensures
        shared.claiming(id).sessions.contains_key(id),
        !shared.sessions.contains_key(id) ==> shared.claiming(id).sessions[id].len() == 0,
        shared.sessions.contains_key(id) ==> shared.claiming(id) == shared,
        other != id ==> shared.claiming(id).sessions.contains_key(other)
            == shared.sessions.contains_key(other),
        other != id && shared.sessions.contains_key(other) ==> shared.claiming(id).sessions[other]
            == shared.sessions[other],
        shared.claiming(id) == (SharedView { sessions: shared.claiming(id).sessions, ..shared }),
{
}

/// A claim that is given up is gone, with what was waiting, and no other is touched.
pub proof fn claims_are_given_up(shared: SharedView, id: u64, other: u64, payload: Seq<u8>)
    ensures
        !shared.unclaiming(id).sessions.contains_key(id),
        shared.unclaiming(id).obstacle(
            DatagramView { quarter_stream_id: id, context_id: 0, payload },
        ) == Some(DropKind::Unroutable),
        shared.unclaiming(id).next_payload(id) is None,
        other != id ==> shared.unclaiming(id).sessions.contains_key(other)
            == shared.sessions.contains_key(other),
        other != id && shared.sessions.contains_key(other) ==> shared.unclaiming(
            id,
        ).sessions[other] == shared.sessions[other],
        shared.unclaiming(id) == (SharedView { sessions: shared.unclaiming(id).sessions, ..shared }),
{
}

/// The connection once a session has taken what waits for it `count` times.
pub open spec fn taking(shared: SharedView, id: u64, count: nat) -> SharedView
    decreases count,
{
    if count == 0 {
        shared
    } else {
        taking(shared, id, (count - 1) as nat).handing_over(id)
    }
}

proof fn lemma_taking(shared: SharedView, id: u64, count: nat)
    requires
        shared.sessions.contains_key(id),
        count <= shared.sessions[id].len(),
    ensures
        taking(shared, id, count).sessions.contains_key(id),
        taking(shared, id, count).sessions[id] == shared.sessions[id].subrange(
            count as int,
            shared.sessions[id].len() as int,
        ),
        taking(shared, id, count) == (SharedView {
            sessions: taking(shared, id, count).sessions,
            ..shared
        }),
        forall|other: u64| #![trigger taking(shared, id, count).sessions[other]]
            other != id && shared.sessions.contains_key(other) ==> taking(
                shared,
                id,
                count,
            ).sessions[other] == shared.sessions[other],
    decreases count,
{
    let queue = shared.sessions[id];
    if count == 0 {
        assert(queue.subrange(0, queue.len() as int) =~= queue);
    } else {
        lemma_taking(shared, id, (count - 1) as nat);
        assert(queue.subrange(count - 1, queue.len() as int).drop_first() =~= queue.subrange(
            count as int,
            queue.len() as int,
        ));
    }
}

/// What arrives for a session it takes in that order, each payload once and as it
/// was sent, and then nothing more.
pub proof fn payloads_are_taken_in_order(
    shared: SharedView,
    id: u64,
    payloads: Seq<Seq<u8>>,
    count: nat,
)
    requires
        !shared.sessions.contains_key(id),
        payloads.len() <= 64,
        count <= payloads.len(),
    ensures
        ({
            let later = taking(arriving(shared.claiming(id), id, payloads), id, count);
            later.next_payload(id) == if count < payloads.len() {
                Some(payloads[count as int])
            } else {
                None
            }
        }),
{
    let open = shared.claiming(id);
    payloads_wait_in_order(open, id, payloads);
    let full = arriving(open, id, payloads);
    assert(full.sessions[id] =~= payloads);
    lemma_taking(full, id, count);
}

/// A request is served exactly where it is below the last GOAWAY, or there was none.
pub proof fn requests_below_the_goaway_are_served(id: u64, sent: u64)
    ensures
        served(None, id),
        served(Some(sent), id) <==> id < sent,
{
}

/// The streams that a peer may open are served as what their types say, and others
/// are stopped with H3_STREAM_CREATION_ERROR.
pub proof fn streams_are_served_by_their_types(stream_type: u64)
    ensures
        role_of(0) is Control,
        role_of(2) == StreamRole::Qpack(QpackStream::Encoder),
        role_of(3) == StreamRole::Qpack(QpackStream::Decoder),
        stream_type != 0 && stream_type != 2 && stream_type != 3 ==> role_of(stream_type)
            == StreamRole::Stop(0x103),
{
}

/// A drop is said aloud with its kind and how many of that kind there have been,
/// where that is a power of two.
pub proof fn drops_are_said_aloud(shared: SharedView, kind: DropKind, k: nat)
    requires
        shared.drops(kind) < u64::MAX,
    ensures
        shared.drops(kind) + 1 == pow2(k) ==> shared.report(kind) == Some(
            (kind, (shared.drops(kind) + 1) as u64),
        ),
        shared.report(kind) matches Some((said, total)) ==> said == kind && total == shared.drops(
            kind,
        ) + 1 && exists|e: nat| total == pow2(e),
{
    powers_of_two_are_said_aloud((shared.drops(kind) + 1) as u64, k);
}

/// The codes and statuses have the numbers they are registered under.
pub proof fn codes_have_their_registered_numbers()
    ensures
        Code::H3_DATAGRAM_ERROR.number() == 0x33,
        Code::H3_NO_ERROR.number() == 0x100,
        Code::H3_GENERAL_PROTOCOL_ERROR.number() == 0x101,
        Code::H3_INTERNAL_ERROR.number() == 0x102,
        Code::H3_STREAM_CREATION_ERROR.number() == 0x103,
        Code::H3_CLOSED_CRITICAL_STREAM.number() == 0x104,
        Code::H3_FRAME_UNEXPECTED.number() == 0x105,
        Code::H3_FRAME_ERROR.number() == 0x106,
        Code::H3_EXCESSIVE_LOAD.number() == 0x107,
        Code::H3_ID_ERROR.number() == 0x108,
        Code::H3_SETTINGS_ERROR.number() == 0x109,
        Code::H3_MISSING_SETTINGS.number() == 0x10a,
        Code::H3_REQUEST_REJECTED.number() == 0x10b,
        Code::H3_REQUEST_CANCELLED.number() == 0x10c,
        Code::H3_REQUEST_INCOMPLETE.number() == 0x10d,
        Code::H3_MESSAGE_ERROR.number() == 0x10e,
        Code::H3_CONNECT_ERROR.number() == 0x10f,
        Code::H3_VERSION_FALLBACK.number() == 0x110,
        Code::QPACK_DECOMPRESSION_FAILED.number() == 0x200,
        Code::QPACK_ENCODER_STREAM_ERROR.number() == 0x201,
        Code::QPACK_DECODER_STREAM_ERROR.number() == 0x202,
        Status::OK.number() == 200,
        Status::BAD_REQUEST.number() == 400,
        Status::FORBIDDEN.number() == 403,
        Status::PROXY_AUTHENTICATION_REQUIRED.number() == 407,
        Status::REQUEST_HEADER_FIELDS_TOO_LARGE.number() == 431,
        Status::INTERNAL_SERVER_ERROR.number() == 500,
        Status::NOT_IMPLEMENTED.number() == 501,
        Status::BAD_GATEWAY.number() == 502,
        Status::SERVICE_UNAVAILABLE.number() == 503,
        Status::GATEWAY_TIMEOUT.number() == 504,
{
}

} // verus!
