//! What holds of the frame layer as a whole.

use vstd::prelude::*;

use crate::datagram::{VARINT_MAX, varint_bytes, varint_prefix, varint_round_trip, varint_size};
use crate::h3::HEADERS_BUFFER_BUDGET;
use crate::h3::error::{Code, Fault};
use crate::h3::frame::{
    DATA, DecoderView, FrameView, ItemView, MAX_BUFFERED_FRAME, SETTING_H3_DATAGRAM, Settings,
    State, Step, StreamKind, advertised, announced, at_boundary, buffered_type, first_setting_fault,
    frame_header, header_bytes, lemma_header_exact, lemma_header_local, lemma_step_well_formed,
    lesser, misplacement, next_step, pairs_bytes, parsed, past_header, payload_step, reserved_type,
    setting_fault, setting_pairs, settings_of, settings_whole,
};

verus! {

/// A frame header reads back as the type and length it was written from, each in
/// its turn, whatever follows it. It takes no more than sixteen bytes.
pub proof fn header_round_trip(kind: u64, length: u64, rest: Seq<u8>)
    requires
        kind <= VARINT_MAX,
        length <= VARINT_MAX,
    ensures
        frame_header(header_bytes(kind, length) + rest) == Some(
            (kind, length, varint_size(kind) + varint_size(length)),
        ),
        header_bytes(kind, length).len() == varint_size(kind) + varint_size(length),
        header_bytes(kind, length).len() <= 16,
        varint_prefix(header_bytes(kind, length) + rest) == Some((kind, varint_size(kind))),
        varint_prefix(
            (header_bytes(kind, length) + rest).subrange(
                varint_size(kind) as int,
                (header_bytes(kind, length) + rest).len() as int,
            ),
        ) == Some((length, varint_size(length))),
{
    let bytes = header_bytes(kind, length) + rest;
    varint_round_trip(kind, varint_bytes(length) + rest);
    assert(bytes =~= varint_bytes(kind) + (varint_bytes(length) + rest));
    varint_round_trip(length, rest);
    assert(bytes.subrange(varint_size(kind) as int, bytes.len() as int) =~= varint_bytes(length)
        + rest);
}

proof fn lemma_pairs_bytes_front(pairs: Seq<(u64, u64)>)
    requires
        pairs.len() > 0,
    ensures
        pairs_bytes(pairs) == header_bytes(pairs[0].0, pairs[0].1) + pairs_bytes(
            pairs.subrange(1, pairs.len() as int),
        ),
    decreases pairs.len(),
{
    let tail = pairs.subrange(1, pairs.len() as int);
    let front = header_bytes(pairs[0].0, pairs[0].1);
    if pairs.len() == 1 {
        assert(pairs.drop_last() =~= Seq::empty());
        assert(tail =~= Seq::empty());
        assert(pairs_bytes(pairs) =~= front + pairs_bytes(tail));
    } else {
        lemma_pairs_bytes_front(pairs.drop_last());
        assert(pairs.drop_last().subrange(1, pairs.len() - 1) =~= tail.drop_last());
        assert(pairs_bytes(pairs) =~= front + pairs_bytes(tail));
    }
}

/// Settings read back as the pairs they were written from.
pub proof fn settings_round_trip(pairs: Seq<(u64, u64)>)
    requires
        forall|i: int|
            0 <= i < pairs.len() ==> (#[trigger] pairs[i]).0 <= VARINT_MAX && pairs[i].1
                <= VARINT_MAX,
    ensures
        setting_pairs(pairs_bytes(pairs)) == pairs,
        settings_whole(pairs_bytes(pairs)),
    decreases pairs.len(),
{
    let bytes = pairs_bytes(pairs);
    if pairs.len() == 0 {
        assert(setting_pairs(bytes) =~= pairs);
    } else {
        let tail = pairs.subrange(1, pairs.len() as int);
        lemma_pairs_bytes_front(pairs);
        header_round_trip(pairs[0].0, pairs[0].1, pairs_bytes(tail));
        let used = varint_size(pairs[0].0) + varint_size(pairs[0].1);
        assert(bytes.subrange(used as int, bytes.len() as int) =~= pairs_bytes(tail));
        assert forall|i: int| 0 <= i < tail.len() implies (#[trigger] tail[i]).0 <= VARINT_MAX
            && tail[i].1 <= VARINT_MAX by {
            assert(tail[i] == pairs[i + 1]);
        }
        settings_round_trip(tail);
        assert(setting_pairs(bytes) =~= pairs);
    }
}

/// What this server advertises survives its own parser, and turns datagrams on.
pub proof fn own_settings_parse()
    ensures
        settings_of(pairs_bytes(advertised())) == Ok::<Settings, Fault>(
            Settings { datagrams: true },
        ),
{
    let pairs = advertised();
    settings_round_trip(pairs);
    assert(pairs.len() == 6);
    assert(pairs[4] == (SETTING_H3_DATAGRAM, 1u64));
    assert(forall|i: int| 0 <= i < 6 ==> setting_fault(pairs, i) is None);
    reveal_with_fuel(first_setting_fault, 7);
}

/// No value but that of `SETTINGS_H3_DATAGRAM` matters: two lists of the same
/// settings that differ in other values are judged the same.
pub proof fn only_the_datagram_setting_has_a_value(
    left: Seq<(u64, u64)>,
    right: Seq<(u64, u64)>,
    count: nat,
)
    requires
        left.len() == right.len(),
        count <= left.len(),
        forall|i: int|
            0 <= i < left.len() ==> (#[trigger] left[i]).0 == right[i].0 && (left[i].0
                == SETTING_H3_DATAGRAM ==> left[i].1 == right[i].1),
    ensures
        first_setting_fault(left, count) == first_setting_fault(right, count),
        (exists|i: int|
            0 <= i < left.len() && #[trigger] left[i] == (SETTING_H3_DATAGRAM, 1u64)) <==> (exists|
            i: int,
        |
            0 <= i < right.len() && #[trigger] right[i] == (SETTING_H3_DATAGRAM, 1u64)),
    decreases count,
{
    assert forall|i: int| 0 <= i < right.len() && #[trigger] right[i] == (
        SETTING_H3_DATAGRAM,
        1u64,
    ) implies left[i] == (SETTING_H3_DATAGRAM, 1u64) by {
        assert(left[i].0 == right[i].0);
    }
    if count > 0 {
        only_the_datagram_setting_has_a_value(left, right, (count - 1) as nat);
        let i = count - 1;
        assert(left[i].0 == right[i].0);
        if exists|j: int| 0 <= j < i && #[trigger] left[j].0 == left[i].0 {
            let j = choose|j: int| 0 <= j < i && #[trigger] left[j].0 == left[i].0;
            assert(right[j].0 == right[i].0);
        }
        if exists|j: int| 0 <= j < i && #[trigger] right[j].0 == right[i].0 {
            let j = choose|j: int| 0 <= j < i && #[trigger] right[j].0 == right[i].0;
            assert(left[j].0 == right[j].0);
        }
    }
}

/// A frame type that may not appear on a stream is refused as a connection error
/// whatever length it declares.
pub proof fn the_type_is_judged_before_the_length(stream: StreamKind, kind: u64, length: u64)
    requires
        reserved_type(kind) || misplacement(stream, kind) is Some,
    ensures
        announced(stream, kind, length) matches Err(fault) && fault.fatal && fault.code
            == Code::H3_FRAME_UNEXPECTED,
        forall|other: u64| #[trigger]
            announced(stream, kind, other) == announced(stream, kind, length),
{
}

/// What a decoder charges is what the budget holds for it: a step moves both by
/// the same amount, whatever its outcome, so what the other decoders hold is
/// untouched. The budget is never exceeded.
pub proof fn the_budget_is_conserved(decoder: DecoderView, held: nat)
    requires
        decoder.well_formed(),
        decoder.charged <= held <= HEADERS_BUFFER_BUDGET,
    ensures
        next_step(decoder, held).held - next_step(decoder, held).decoder.charged == held
            - decoder.charged,
        next_step(decoder, held).decoder.charged <= next_step(decoder, held).held
            <= HEADERS_BUFFER_BUDGET,
{
}

/// A decoder between frames holds nothing of the budget.
pub proof fn nothing_is_charged_between_frames(decoder: DecoderView)
    requires
        decoder.well_formed(),
        !(decoder.state is Buffering),
    ensures
        decoder.charged == 0,
{
}

/// A whole frame that has to be buffered, arriving in one chunk at a frame
/// boundary, comes out parsed, leaves the bytes behind it and gives back all it
/// was charged.
pub proof fn a_whole_frame_comes_out(
    decoder: DecoderView,
    held: nat,
    kind: u64,
    payload: Seq<u8>,
    rest: Seq<u8>,
)
    requires
        decoder.well_formed(),
        at_boundary(decoder),
        decoder.chunk == header_bytes(kind, payload.len() as u64) + payload + rest,
        payload.len() <= MAX_BUFFERED_FRAME,
        buffered_type(kind),
        misplacement(decoder.stream, kind) is None,
        held + payload.len() <= HEADERS_BUFFER_BUDGET,
    ensures
        next_step(decoder, held) == (Step {
            decoder: DecoderView { chunk: rest, ..decoder },
            held,
            outcome: match parsed(kind, payload) {
                Ok(frame) => Ok(Some(ItemView::Frame(frame))),
                Err(fault) => Err(fault),
            },
        }),
{
    let length = payload.len() as u64;
    header_round_trip(kind, length, payload + rest);
    let bytes = decoder.header + decoder.chunk;
    assert(bytes =~= header_bytes(kind, length) + (payload + rest));
    let used = varint_size(kind) + varint_size(length);
    let after = past_header(decoder, used);
    assert(after.chunk =~= payload + rest);
    assert(decoder.payload =~= Seq::<u8>::empty());
    assert((payload + rest).subrange(0, payload.len() as int) =~= payload);
    assert(Seq::<u8>::empty() + payload =~= payload);
    assert((payload + rest).subrange(payload.len() as int, (payload + rest).len() as int)
        =~= rest);
    assert(decoder.header =~= Seq::<u8>::empty());
}

/// A whole DATA frame, arriving in one chunk at a frame boundary, comes out as it
/// was sent and leaves the bytes behind it. The budget is not asked.
pub proof fn a_whole_data_frame_comes_out(
    decoder: DecoderView,
    held: nat,
    data: Seq<u8>,
    rest: Seq<u8>,
)
    requires
        decoder.well_formed(),
        at_boundary(decoder),
        data.len() <= VARINT_MAX,
        decoder.chunk == header_bytes(DATA, data.len() as u64) + data + rest,
    ensures
        next_step(decoder, held) == (Step {
            decoder: DecoderView { chunk: rest, ..decoder },
            held,
            outcome: Ok(Some(ItemView::Data(data))),
        }),
{
    let length = data.len() as u64;
    header_round_trip(DATA, length, data + rest);
    let bytes = decoder.header + decoder.chunk;
    assert(bytes =~= header_bytes(DATA, length) + (data + rest));
    let used = varint_size(DATA) + varint_size(length);
    let after = past_header(decoder, used);
    assert(after.chunk =~= data + rest);
    assert((data + rest).subrange(0, data.len() as int) =~= data);
    assert((data + rest).subrange(data.len() as int, (data + rest).len() as int) =~= rest);
    assert(decoder.header =~= Seq::<u8>::empty());
}

// ---------------------------------------------------------------------------
// Where the chunks are cut makes no difference
// ---------------------------------------------------------------------------

/// One thing a frame sequence says, independent of how its bytes were cut into
/// chunks.
pub enum Event {
    /// One byte of DATA payload.
    Byte(u8),
    /// The end of a DATA frame.
    DataEnd,
    /// Any other known frame.
    Frame(FrameView),
    /// A frame of an unknown type.
    Skipped {
        /// Its type.
        kind: u64,
    },
}

/// What an item says, given the state it leaves the decoder in. A piece of a DATA
/// frame says its bytes, and the last piece that the frame ends there.
pub open spec fn events_of(item: ItemView, after: State) -> Seq<Event> {
    match item {
        ItemView::Data(data) => data.map_values(|byte: u8| Event::Byte(byte)) + if after is Header {
            seq![Event::DataEnd]
        } else {
            Seq::empty()
        },
        ItemView::Frame(frame) => seq![Event::Frame(frame)],
        ItemView::Skipped { kind } => seq![Event::Skipped { kind }],
    }
}

/// What comes of asking for items until more bytes are needed or a fault ends
/// the stream.
pub struct Run {
    /// The decoder afterwards.
    pub decoder: DecoderView,
    /// What the budget holds afterwards.
    pub held: nat,
    /// What the items said.
    pub events: Seq<Event>,
    /// The fault that ended it.
    pub fault: Option<Fault>,
}

/// Asks for items until there are none.
#[verifier::opaque]
pub open spec fn drained(decoder: DecoderView, held: nat) -> Run
    decreases decoder.chunk.len(),
{
    let step = next_step(decoder, held);
    match step.outcome {
        Err(fault) => Run {
            decoder: step.decoder,
            held: step.held,
            events: Seq::empty(),
            fault: Some(fault),
        },
        Ok(None) => Run {
            decoder: step.decoder,
            held: step.held,
            events: Seq::empty(),
            fault: None,
        },
        Ok(Some(item)) => if step.decoder.chunk.len() < decoder.chunk.len() {
            let rest = drained(step.decoder, step.held);
            Run { events: events_of(item, step.decoder.state) + rest.events, ..rest }
        } else {
            Run {
                decoder: step.decoder,
                held: step.held,
                events: events_of(item, step.decoder.state),
                fault: None,
            }
        },
    }
}

/// `decoder` with `chunk` pushed.
pub open spec fn fed(decoder: DecoderView, chunk: Seq<u8>) -> DecoderView {
    DecoderView { chunk, ..decoder }
}

/// Whether a step hands out a part of a DATA frame that takes the whole chunk.
pub(crate) open spec fn partial_data(step: Step) -> bool {
    step.outcome matches Ok(Some(ItemView::Data(data))) && step.decoder.state is Data
}

/// How the step on a chunk (`short`), the step on that chunk with `more` behind
/// it (`long`) and the step that resumes on `more` alone (`resumed`) go together.
pub(crate) open spec fn cut_relation(short: Step, long: Step, resumed: Step, more: Seq<u8>) -> bool {
    if short.outcome == Ok::<Option<ItemView>, Fault>(None) {
        long == resumed
    } else if partial_data(short) {
        &&& short.decoder.chunk.len() == 0
        &&& more.len() > 0 ==> {
            &&& long.decoder == resumed.decoder
            &&& long.held == resumed.held
            &&& long.held == short.held
            &&& long.outcome matches Ok(Some(ItemView::Data(all)))
                && short.outcome matches Ok(Some(ItemView::Data(head)))
                && resumed.outcome matches Ok(Some(ItemView::Data(tail))) && head.len() > 0
                && tail.len() > 0 && all == head + tail
        }
    } else {
        &&& long.decoder == fed(short.decoder, short.decoder.chunk + more)
        &&& long.held == short.held
        &&& long.outcome == short.outcome
    }
}

/// A chunk that ends at or before the end of a payload, with `more` behind it.
proof fn lemma_split(chunk: Seq<u8>, more: Seq<u8>, remaining: nat)
    ensures
        remaining <= chunk.len() ==> {
            let whole = chunk + more;
            let take = remaining as int;
            &&& whole.subrange(0, take) == chunk.subrange(0, take)
            &&& whole.subrange(take, whole.len() as int) == chunk.subrange(
                take,
                chunk.len() as int,
            ) + more
        },
        remaining > chunk.len() ==> {
            let whole = chunk + more;
            let take = lesser(remaining, whole.len());
            let tail = lesser((remaining - chunk.len()) as nat, more.len());
            &&& take == chunk.len() + tail
            &&& whole.subrange(0, take as int) == chunk + more.subrange(0, tail as int)
            &&& whole.subrange(take as int, whole.len() as int) == more.subrange(
                tail as int,
                more.len() as int,
            )
        },
        chunk.subrange(0, chunk.len() as int) == chunk,
        chunk.subrange(chunk.len() as int, chunk.len() as int) == Seq::<u8>::empty(),
{
    let whole = chunk + more;
    if remaining <= chunk.len() {
        let take = remaining as int;
        assert(whole.subrange(0, take) =~= chunk.subrange(0, take));
        assert(whole.subrange(take, whole.len() as int) =~= chunk.subrange(
            take,
            chunk.len() as int,
        ) + more);
    } else {
        let take = lesser(remaining, whole.len());
        let tail = lesser((remaining - chunk.len()) as nat, more.len());
        assert(whole.subrange(0, take as int) =~= chunk + more.subrange(0, tail as int));
        assert(whole.subrange(take as int, whole.len() as int) =~= more.subrange(
            tail as int,
            more.len() as int,
        ));
    }
    assert(chunk.subrange(0, chunk.len() as int) =~= chunk);
    assert(chunk.subrange(chunk.len() as int, chunk.len() as int) =~= Seq::<u8>::empty());
}

proof fn lemma_data_cut(decoder: DecoderView, held: nat, more: Seq<u8>)
    requires
        decoder.state is Data,
    ensures
        ({
            let short = payload_step(decoder, held);
            let long = payload_step(fed(decoder, decoder.chunk + more), held);
            let resumed = payload_step(fed(short.decoder, more), short.held);
            cut_relation(short, long, resumed, more) && short.held == held
        }),
{
    let chunk = decoder.chunk;
    if let State::Data { remaining } = decoder.state {
        lemma_split(chunk, more, remaining as nat);
        if chunk.len() == 0 {
            assert(chunk + more =~= more);
        }
    }
}

proof fn lemma_buffering_cut(decoder: DecoderView, held: nat, more: Seq<u8>)
    requires
        decoder.state is Buffering,
    ensures
        ({
            let short = payload_step(decoder, held);
            let long = payload_step(fed(decoder, decoder.chunk + more), held);
            let resumed = payload_step(fed(short.decoder, more), short.held);
            cut_relation(short, long, resumed, more)
        }),
{
    let chunk = decoder.chunk;
    if let State::Buffering { kind, remaining } = decoder.state {
        lemma_split(chunk, more, remaining as nat);
        if remaining > chunk.len() {
            let tail = lesser((remaining - chunk.len()) as nat, more.len());
            assert(decoder.payload + (chunk + more.subrange(0, tail as int)) =~= (decoder.payload
                + chunk) + more.subrange(0, tail as int));
        }
    }
}

proof fn lemma_skipping_cut(decoder: DecoderView, held: nat, more: Seq<u8>)
    requires
        decoder.state is Skipping,
    ensures
        ({
            let short = payload_step(decoder, held);
            let long = payload_step(fed(decoder, decoder.chunk + more), held);
            let resumed = payload_step(fed(short.decoder, more), short.held);
            cut_relation(short, long, resumed, more)
        }),
{
    let chunk = decoder.chunk;
    if let State::Skipping { kind, remaining } = decoder.state {
        lemma_split(chunk, more, remaining as nat);
    }
}

/// How a step inside a payload changes when `more` follows its chunk.
proof fn lemma_payload_cut(decoder: DecoderView, held: nat, more: Seq<u8>)
    requires
        !(decoder.state is Header),
    ensures
        ({
            let short = payload_step(decoder, held);
            let long = payload_step(fed(decoder, decoder.chunk + more), held);
            let resumed = payload_step(fed(short.decoder, more), short.held);
            cut_relation(short, long, resumed, more)
        }),
{
    match decoder.state {
        State::Header => {},
        State::Data { remaining } => {
            lemma_data_cut(decoder, held, more);
        },
        State::Buffering { kind, remaining } => {
            lemma_buffering_cut(decoder, held, more);
        },
        State::Skipping { kind, remaining } => {
            lemma_skipping_cut(decoder, held, more);
        },
    }
}

/// How a step changes when `more` follows its chunk.
#[verifier::rlimit(40)]
proof fn lemma_step_cut(decoder: DecoderView, held: nat, more: Seq<u8>)
    requires
        decoder.well_formed(),
    ensures
        cut_relation(
            next_step(decoder, held),
            next_step(fed(decoder, decoder.chunk + more), held),
            next_step(
                fed(next_step(decoder, held).decoder, more),
                next_step(decoder, held).held,
            ),
            more,
        ),
{
    let short = next_step(decoder, held);
    let longer = fed(decoder, decoder.chunk + more);
    let bytes = decoder.header + decoder.chunk;
    let whole = decoder.header + (decoder.chunk + more);
    if decoder.state is Header {
        assert(whole =~= bytes + more);
        match frame_header(bytes) {
            None => {
                assert(fed(short.decoder, more).header + more =~= whole);
            },
            Some((kind, length, used)) => {
                lemma_header_exact(bytes);
                assert(whole.subrange(0, bytes.len() as int) =~= bytes);
                lemma_header_local(bytes, whole);
                let after = past_header(decoder, used);
                let after_longer = past_header(longer, used);
                assert(after_longer.chunk =~= after.chunk + more);
                assert(after_longer == fed(after, after.chunk + more));
                match announced(decoder.stream, kind, length) {
                    Err(fault) => {},
                    Ok(state) => match state {
                        State::Header => {},
                        State::Buffering { kind: _, remaining } => {
                            if held + remaining <= HEADERS_BUFFER_BUDGET {
                                lemma_payload_cut(
                                    DecoderView { state, charged: remaining as nat, ..after },
                                    held + remaining as nat,
                                    more,
                                );
                            }
                        },
                        _ => {
                            lemma_payload_cut(DecoderView { state, ..after }, held, more);
                        },
                    },
                }
            },
        }
    } else {
        lemma_payload_cut(decoder, held, more);
    }
}

/// A decoder that has nothing to read says nothing and stays as it is.
proof fn lemma_idle(decoder: DecoderView, held: nat)
    requires
        decoder.well_formed(),
        decoder.chunk.len() == 0,
    ensures
        drained(decoder, held) == (Run { decoder, held, events: Seq::empty(), fault: None }),
{
    reveal(drained);
    assert(decoder.chunk =~= Seq::<u8>::empty());
    assert(decoder.header + decoder.chunk =~= decoder.header);
    assert(decoder.chunk.subrange(0, 0) =~= Seq::<u8>::empty());
    assert(decoder.payload + decoder.chunk.subrange(0, 0) =~= decoder.payload);
}

/// [`next_step`], taken as a whole.
#[verifier::opaque]
pub(crate) open spec fn whole_step(decoder: DecoderView, held: nat) -> Step {
    next_step(decoder, held)
}

/// What comes of a step and the steps after it.
spec fn continued(step: Step) -> Run {
    match step.outcome {
        Err(fault) => Run {
            decoder: step.decoder,
            held: step.held,
            events: Seq::empty(),
            fault: Some(fault),
        },
        Ok(None) => Run {
            decoder: step.decoder,
            held: step.held,
            events: Seq::empty(),
            fault: None,
        },
        Ok(Some(item)) => {
            let rest = drained(step.decoder, step.held);
            Run { events: events_of(item, step.decoder.state) + rest.events, ..rest }
        },
    }
}

proof fn lemma_continued(decoder: DecoderView, held: nat)
    requires
        decoder.well_formed(),
    ensures
        drained(decoder, held) == continued(whole_step(decoder, held)),
        whole_step(decoder, held).decoder.well_formed(),
        whole_step(decoder, held).outcome == Ok::<Option<ItemView>, Fault>(None) ==> whole_step(
            decoder,
            held,
        ).decoder.chunk.len() == 0,
        whole_step(decoder, held).outcome != Ok::<Option<ItemView>, Fault>(None) ==> whole_step(
            decoder,
            held,
        ).decoder.chunk.len() < decoder.chunk.len(),
{
    reveal(drained);
    reveal(whole_step);
    lemma_step_well_formed(decoder, held);
}

pub(crate) proof fn lemma_whole_step_cut(decoder: DecoderView, held: nat, more: Seq<u8>)
    requires
        decoder.well_formed(),
    ensures
        cut_relation(
            whole_step(decoder, held),
            whole_step(fed(decoder, decoder.chunk + more), held),
            whole_step(
                fed(whole_step(decoder, held).decoder, more),
                whole_step(decoder, held).held,
            ),
            more,
        ),
{
    reveal(whole_step);
    lemma_step_cut(decoder, held, more);
}

/// Where a stream's bytes are cut in two makes no difference: pushing one chunk
/// and then the other says the same as pushing both at once, down to where each
/// DATA frame ends, the fault that ends it all, the state of the decoder and what
/// the budget holds.
pub proof fn cuts_make_no_difference(decoder: DecoderView, held: nat, more: Seq<u8>)
    requires
        decoder.well_formed(),
    ensures
        ({
            let first = drained(decoder, held);
            let both = drained(fed(decoder, decoder.chunk + more), held);
            let second = drained(fed(first.decoder, more), first.held);
            &&& first.fault is Some ==> both.events == first.events && both.fault == first.fault
                && both.held == first.held
            &&& first.fault is None ==> first.decoder.well_formed() && first.decoder.chunk.len() == 0
                && both == (Run { events: first.events + second.events, ..second })
        }),
    decreases decoder.chunk.len(),
{
    let short = whole_step(decoder, held);
    let longer = fed(decoder, decoder.chunk + more);
    let long = whole_step(longer, held);
    lemma_continued(decoder, held);
    lemma_continued(longer, held);
    lemma_whole_step_cut(decoder, held, more);
    let first = drained(decoder, held);
    let both = drained(longer, held);
    match short.outcome {
        Err(fault) => {},
        Ok(None) => {
            let resumed_from = fed(short.decoder, more);
            lemma_continued(resumed_from, short.held);
            let second = drained(resumed_from, short.held);
            assert(both == second);
            assert(first.events + second.events =~= second.events);
        },
        Ok(Some(item)) => {
            if partial_data(short) {
                lemma_idle(short.decoder, short.held);
                assert(first.events =~= events_of(item, short.decoder.state));
                let resumed_from = fed(short.decoder, more);
                let second = drained(resumed_from, short.held);
                if more.len() == 0 {
                    assert(decoder.chunk + more =~= decoder.chunk);
                    assert(longer == decoder);
                    assert(more =~= short.decoder.chunk);
                    assert(resumed_from == short.decoder);
                    assert(first.events + second.events =~= both.events);
                } else {
                    lemma_continued(resumed_from, short.held);
                    let resumed = whole_step(resumed_from, short.held);
                    let all = long.outcome->Ok_0->0;
                    let tail = resumed.outcome->Ok_0->0;
                    assert(events_of(all, long.decoder.state) =~= events_of(
                        item,
                        short.decoder.state,
                    ) + events_of(tail, resumed.decoder.state));
                    assert(both.events =~= first.events + second.events);
                }
            } else {
                cuts_make_no_difference(short.decoder, short.held, more);
                let inner = drained(short.decoder, short.held);
                let second = drained(fed(first.decoder, more), first.held);
                if first.fault is None {
                    assert(both.events =~= first.events + second.events);
                }
            }
        },
    }
}

/// Chunks, one behind the other.
pub open spec fn joined(chunks: Seq<Seq<u8>>) -> Seq<u8>
    decreases chunks.len(),
{
    if chunks.len() == 0 {
        Seq::empty()
    } else {
        chunks[0] + joined(chunks.drop_first())
    }
}

/// Pushes chunks one at a time and asks for items after each, until there are no
/// more chunks or a fault ends the stream.
pub open spec fn pushed(decoder: DecoderView, held: nat, chunks: Seq<Seq<u8>>) -> Run
    decreases chunks.len(),
{
    if chunks.len() == 0 {
        Run { decoder, held, events: Seq::empty(), fault: None }
    } else {
        let first = drained(fed(decoder, chunks[0]), held);
        if first.fault is Some {
            first
        } else {
            let rest = pushed(first.decoder, first.held, chunks.drop_first());
            Run { events: first.events + rest.events, ..rest }
        }
    }
}

/// Whether two runs say the same and end alike: in the same fault, or without one
/// and with the decoder in the same state.
pub open spec fn alike(left: Run, right: Run) -> bool {
    &&& left.events == right.events
    &&& left.fault == right.fault
    &&& left.held == right.held
    &&& left.fault is None ==> left.decoder == right.decoder
}

proof fn lemma_pushed_at_once(decoder: DecoderView, held: nat, chunks: Seq<Seq<u8>>)
    requires
        decoder.well_formed(),
        decoder.chunk.len() == 0,
    ensures
        alike(pushed(decoder, held, chunks), drained(fed(decoder, joined(chunks)), held)),
    decreases chunks.len(),
{
    assert(decoder.chunk =~= Seq::<u8>::empty());
    if chunks.len() == 0 {
        lemma_idle(decoder, held);
    } else {
        let start = fed(decoder, chunks[0]);
        let rest = chunks.drop_first();
        cuts_make_no_difference(start, held, joined(rest));
        let first = drained(start, held);
        if first.fault is None {
            lemma_pushed_at_once(first.decoder, first.held, rest);
        }
    }
}

/// However a stream's bytes are cut into chunks, the same comes out: the same
/// frames in the same order, each DATA frame with the same bytes once its pieces
/// are joined, the same fault or the same place in the frame sequence, and the
/// same held of the budget.
pub proof fn any_two_cuts_are_alike(
    decoder: DecoderView,
    held: nat,
    left: Seq<Seq<u8>>,
    right: Seq<Seq<u8>>,
)
    requires
        decoder.well_formed(),
        decoder.chunk.len() == 0,
        joined(left) == joined(right),
    ensures
        alike(pushed(decoder, held, left), pushed(decoder, held, right)),
{
    lemma_pushed_at_once(decoder, held, left);
    lemma_pushed_at_once(decoder, held, right);
}

/// The DATA frames that carry these payloads, one behind the other.
pub open spec fn tunnelled(payloads: Seq<Seq<u8>>) -> Seq<u8>
    decreases payloads.len(),
{
    if payloads.len() == 0 {
        Seq::empty()
    } else {
        header_bytes(DATA, payloads[0].len() as u64) + payloads[0] + tunnelled(
            payloads.drop_first(),
        )
    }
}

/// What these payloads say as DATA frames, one behind the other.
pub open spec fn carried(payloads: Seq<Seq<u8>>) -> Seq<Event>
    decreases payloads.len(),
{
    if payloads.len() == 0 {
        Seq::empty()
    } else {
        events_of(ItemView::Data(payloads[0]), State::Header) + carried(payloads.drop_first())
    }
}

/// A tunnel carries its bytes: the DATA frames of these payloads say the payloads,
/// each apart and nothing else, and leave the decoder and the budget as they were.
pub proof fn a_tunnel_carries_its_bytes(
    decoder: DecoderView,
    held: nat,
    payloads: Seq<Seq<u8>>,
)
    requires
        decoder.well_formed(),
        at_boundary(decoder),
        forall|i: int| 0 <= i < payloads.len() ==> (#[trigger] payloads[i]).len() <= VARINT_MAX,
        decoder.chunk == tunnelled(payloads),
    ensures
        drained(decoder, held) == (Run {
            decoder: fed(decoder, Seq::empty()),
            held,
            events: carried(payloads),
            fault: None,
        }),
    decreases payloads.len(),
{
    if payloads.len() == 0 {
        lemma_idle(decoder, held);
        assert(decoder.chunk =~= Seq::<u8>::empty());
    } else {
        let later = payloads.drop_first();
        let rest = tunnelled(later);
        assert forall|i: int| 0 <= i < later.len() implies (#[trigger] later[i]).len()
            <= VARINT_MAX by {
            assert(later[i] == payloads[i + 1]);
        }
        a_whole_data_frame_comes_out(decoder, held, payloads[0], rest);
        lemma_continued(decoder, held);
        reveal(whole_step);
        a_tunnel_carries_its_bytes(fed(decoder, rest), held, later);
    }
}

} // verus!
