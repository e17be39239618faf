//! What holds of requests and their streams as a whole.

use vstd::prelude::*;
use vstd::utf8::{encode_utf8, valid_utf8};

use crate::datagram::VARINT_MAX;
use crate::h3::error::{Code, Fault};
use crate::h3::frame::{
    DATA, DecoderView, FrameView, HEADERS, ItemView, MAX_BUFFERED_FRAME, Step, at_boundary,
    header_bytes, lemma_step_well_formed, next_step, parsed,
};
use crate::h3::frame_laws::{
    a_whole_data_frame_comes_out, a_whole_frame_comes_out, fed, lemma_whole_step_cut, whole_step,
};
use crate::h3::huffman;
use crate::h3::message::{
    FieldBytes, MethodView, RequestView, Status, connect_bytes, is_field_name, is_token, is_value,
    values_named,
};
use crate::h3::qpack::{
    after, int_at, int_tail, line_at, lines_from, section_bytes, section_fields, section_prefix,
    string_at,
};
use crate::h3::qpack_laws::{section_round_trip, section_size};
use crate::h3::stream::{
    ReceivedView, Receiving, Reading, heard, receiving, is_authority, is_path, is_query, is_scheme,
    request_of, request_of_block, request_reading, response_fields, trimmed, whitespace, with_field,
};
use crate::h3::{HEADERS_BUFFER_BUDGET, MAX_FIELD_SECTION_SIZE};

verus! {

/// Whether a fault is that of a malformed message.
pub open spec fn is_malformed(fault: Fault) -> bool {
    fault.code == Code::H3_MESSAGE_ERROR && !fault.fatal && !fault.field_section
}

proof fn lemma_heard_malformed(section: Seq<FieldBytes>)
    ensures
        heard(section) matches Err(fault) ==> is_malformed(fault),
    decreases section.len(),
{
    if section.len() > 0 {
        lemma_heard_malformed(section.drop_last());
    }
}

/// A malformed request ends its stream with H3_MESSAGE_ERROR, never the
/// connection.
pub proof fn malformed_requests_end_their_stream(section: Seq<FieldBytes>)
    ensures
        request_of(section) matches Err(fault) ==> is_malformed(fault),
{
    lemma_heard_malformed(section);
}

/// Whether a value has no whitespace at its ends.
pub open spec fn is_trimmed(value: Seq<u8>) -> bool {
    value.len() > 0 ==> !whitespace(value[0]) && !whitespace(value.last())
}

proof fn lemma_trimmed(value: Seq<u8>)
    ensures
        is_trimmed(trimmed(value)),
    decreases value.len(),
{
    if value.len() > 0 && whitespace(value[0]) {
        lemma_trimmed(value.drop_first());
    } else if value.len() > 0 && whitespace(value.last()) {
        lemma_trimmed(value.drop_last());
    }
}

/// Whether every field of a request is one that HTTP/3 allows: a lower-case
/// token for a name, a trimmed value without control characters, no Connection
/// field, and no TE but `trailers`.
pub open spec fn fields_allowed(fields: Seq<FieldBytes>) -> bool {
    forall|i: int|
        0 <= i < fields.len() ==> {
            let (name, value) = #[trigger] fields[i];
            &&& is_field_name(name)
            &&& is_value(value)
            &&& is_trimmed(value)
            &&& name != encode_utf8("connection"@)
            &&& name == encode_utf8("te"@) ==> value == encode_utf8("trailers"@)
        }
}

proof fn lemma_host_once(fields: Seq<FieldBytes>, name: Seq<u8>, value: Seq<u8>)
    requires
        values_named(fields, encode_utf8("host"@)).len() <= 1,
        with_field(fields, name, value) is Ok,
        is_field_name(encode_utf8("host"@)),
    ensures
        values_named(with_field(fields, name, value)->Ok_0, encode_utf8("host"@)).len() <= 1,
{
    let host = encode_utf8("host"@);
    let grown = with_field(fields, name, value)->Ok_0;
    assert(grown.drop_last() =~= fields);
    if crate::h3::message::same_name(name, host) {
        assert(name =~= host) by {
            assert forall|i: int| 0 <= i < name.len() implies name[i] == host[i] by {
                assert(crate::h3::message::lower(name[i]) == crate::h3::message::lower(host[i]));
            }
        }
    }
}

proof fn lemma_host_is_a_name()
    ensures
        is_field_name(encode_utf8("host"@)),
{
    reveal_strlit("host");
    assert(vstd::utf8::is_ascii_chars("host"@));
    vstd::utf8::is_ascii_chars_encode_utf8("host"@);
    let host = encode_utf8("host"@);
    assert(host.len() == 4);
    assert(host[0] == 'h' as u8 && host[1] == 'o' as u8 && host[2] == 's' as u8 && host[3]
        == 't' as u8);
}

proof fn lemma_heard_fields(section: Seq<FieldBytes>)
    ensures
        heard(section) matches Ok(all) ==> fields_allowed(all.fields) && values_named(
            all.fields,
            encode_utf8("host"@),
        ).len() <= 1,
    decreases section.len(),
{
    if section.len() > 0 {
        lemma_heard_fields(section.drop_last());
        if heard(section.drop_last()) is Ok {
            let before = heard(section.drop_last())->Ok_0;
            let (name, value) = section.last();
            if !(name.len() > 0 && name[0] == 0x3a) && with_field(
                before.fields,
                name,
                value,
            ) is Ok {
                lemma_trimmed(value);
                lemma_host_is_a_name();
                lemma_host_once(before.fields, name, value);
            }
        }
    }
}

/// Every field of an accepted request is one that HTTP/3 allows, and there is at
/// most one Host.
pub proof fn accepted_fields_are_allowed(section: Seq<FieldBytes>)
    ensures
        request_of(section) matches Ok(request) ==> fields_allowed(request.fields) && values_named(
            request.fields,
            encode_utf8("host"@),
        ).len() <= 1,
{
    lemma_heard_fields(section);
}

/// An accepted request names its target in one of two ways. A CONNECT without a
/// protocol has an authority and nothing else. Any other has a scheme, an
/// authority and a path, agrees with its Host field if it has both, and has a
/// protocol only if it is a CONNECT.
pub proof fn accepted_requests_name_their_target(section: Seq<FieldBytes>)
    ensures
        request_of(section) matches Ok(request) ==> {
            &&& request.method matches MethodView::Other(token) ==> is_token(token) && token
                != connect_bytes()
            &&& request.authority matches Some(authority) && authority.len() > 0 && is_authority(
                authority,
            )
            &&& request.protocol matches Some(protocol) ==> request.method is Connect
                && valid_utf8(protocol)
            &&& if request.method is Connect && request.protocol is None {
                request.scheme is None && request.path is None && request.query is None
            } else {
                &&& request.scheme matches Some(scheme) && is_scheme(scheme)
                &&& request.path matches Some(path) && is_path(path)
                &&& request.query matches Some(query) ==> is_query(query)
                &&& values_named(request.fields, encode_utf8("host"@)).len() > 0 ==> values_named(
                    request.fields,
                    encode_utf8("host"@),
                )[0] == request.authority->0
            }
        },
{
    if request_of(section) is Ok {
        let all = heard(section)->Ok_0;
        if !(all.method->0 == connect_bytes() && all.protocol is None) {
            let target = all.target->0;
            if target == seq![0x2au8] {
                assert(is_path(target));
            }
        } else {
            crate::h3::message::ascii_is_utf8(Seq::empty());
        }
    }
}

// ---------------------------------------------------------------------------
// Too large, and only that
// ---------------------------------------------------------------------------

/// Whether a fault is marked as a field section too large exactly where it
/// carries H3_EXCESSIVE_LOAD, and then ends no more than the stream.
pub open spec fn load_is_marked(fault: Fault) -> bool {
    &&& fault.field_section <==> fault.code == Code::H3_EXCESSIVE_LOAD
    &&& fault.field_section ==> !fault.fatal
}

proof fn lemma_settings_load(pairs: Seq<(u64, u64)>, count: nat)
    ensures
        crate::h3::frame::first_setting_fault(pairs, count) matches Some(fault) ==> load_is_marked(
            fault,
        ),
    decreases count,
{
    if count > 0 {
        lemma_settings_load(pairs, (count - 1) as nat);
    }
}

proof fn lemma_parsed_load(kind: u64, payload: Seq<u8>)
    ensures
        parsed(kind, payload) matches Err(fault) ==> load_is_marked(fault),
{
    let pairs = crate::h3::frame::setting_pairs(payload);
    lemma_settings_load(pairs, pairs.len());
}

proof fn lemma_step_load(decoder: DecoderView, held: nat)
    ensures
        next_step(decoder, held).outcome matches Err(fault) ==> load_is_marked(fault),
{
    assert forall|kind: u64, payload: Seq<u8>| #[trigger]
        parsed(kind, payload) is Err implies load_is_marked(parsed(kind, payload)->Err_0) by {
        lemma_parsed_load(kind, payload);
    }
}

proof fn lemma_int_tail_load(bytes: Seq<u8>, value: nat, shift: nat)
    ensures
        int_tail(bytes, value, shift) matches Err(fault) ==> load_is_marked(fault),
    decreases bytes.len(),
{
    if bytes.len() > 0 {
        let grown = value + (bytes[0] % 128) as nat * vstd::arithmetic::power2::pow2(shift);
        lemma_int_tail_load(bytes.drop_first(), grown, shift + 7);
    }
}

proof fn lemma_int_load(bytes: Seq<u8>, prefix_bits: nat)
    ensures
        int_at(bytes, prefix_bits) matches Err(fault) ==> load_is_marked(fault),
{
    if bytes.len() > 0 {
        let size = vstd::arithmetic::power2::pow2(prefix_bits);
        lemma_int_tail_load(bytes.drop_first(), bytes[0] as nat % size, 0);
    }
}

proof fn lemma_huffman_load(rest: Seq<bool>, code: nat, bits: nat, out: Seq<u8>)
    ensures
        huffman::decoded_from(rest, code, bits, out) matches Err(fault) ==> load_is_marked(fault),
    decreases rest.len(),
{
    if rest.len() > 0 {
        let longer = 2 * code + if rest[0] {
            1nat
        } else {
            0nat
        };
        lemma_huffman_load(rest.drop_first(), longer, bits + 1, out);
        if let Some(symbol) = huffman::symbol_with(longer, bits + 1) {
            lemma_huffman_load(rest.drop_first(), 0, 0, out.push(symbol as u8));
        }
    }
}

proof fn lemma_string_load(bytes: Seq<u8>, prefix_bits: nat)
    ensures
        string_at(bytes, prefix_bits) matches Err(fault) ==> load_is_marked(fault),
{
    lemma_int_load(bytes, prefix_bits);
    if int_at(bytes, prefix_bits) is Ok {
        let (flags, length, used) = int_at(bytes, prefix_bits)->Ok_0;
        if used + length <= bytes.len() {
            let literal = bytes.subrange(used as int, used + length);
            lemma_huffman_load(huffman::bits_of(literal), 0, 0, Seq::empty());
        }
    }
}

proof fn lemma_line_load(bytes: Seq<u8>)
    ensures
        line_at(bytes) matches Err(fault) ==> load_is_marked(fault),
{
    let first = bytes[0];
    lemma_int_load(bytes, 6);
    lemma_int_load(bytes, 4);
    lemma_string_load(bytes, 3);
    if first >= 0x40 && first < 0x80 && int_at(bytes, 4) is Ok {
        lemma_string_load(after(bytes, (int_at(bytes, 4)->Ok_0).2), 7);
    } else if first >= 0x20 && first < 0x40 && string_at(bytes, 3) is Ok {
        lemma_string_load(after(bytes, (string_at(bytes, 3)->Ok_0).1), 7);
    }
}

proof fn lemma_lines_load(bytes: Seq<u8>, size: nat, limit: u64, done: Seq<FieldBytes>)
    ensures
        lines_from(bytes, size, limit, done) matches Err(fault) ==> load_is_marked(fault),
    decreases bytes.len(),
{
    if bytes.len() > 0 {
        lemma_line_load(bytes);
        if line_at(bytes) is Ok {
            let (field, used) = line_at(bytes)->Ok_0;
            if 0 < used <= bytes.len() {
                lemma_lines_load(
                    after(bytes, used),
                    size + crate::h3::qpack::field_size(field),
                    limit,
                    done.push(field),
                );
            }
        }
    }
}

proof fn lemma_block_load(block: Seq<u8>)
    ensures
        request_of_block(block) matches Err(fault) ==> load_is_marked(fault),
{
    lemma_int_load(block, 8);
    if int_at(block, 8) is Ok {
        lemma_int_load(after(block, (int_at(block, 8)->Ok_0).2), 7);
    }
    if section_prefix(block) is Ok {
        lemma_lines_load(
            after(block, section_prefix(block)->Ok_0),
            0,
            MAX_FIELD_SECTION_SIZE,
            Seq::empty(),
        );
    }
    if section_fields(block, MAX_FIELD_SECTION_SIZE) is Ok {
        malformed_requests_end_their_stream(section_fields(block, MAX_FIELD_SECTION_SIZE)->Ok_0);
    }
}

/// Whatever a request stream holds, the failures that carry H3_EXCESSIVE_LOAD are
/// exactly those of a field section too large, and none of them ends the
/// connection: each is answered with a 431.
pub proof fn only_a_large_field_section_is_excessive_load(
    decoder: DecoderView,
    held: nat,
    finished: bool,
)
    ensures
        request_reading(decoder, held, finished).outcome matches Err(fault) ==> load_is_marked(
            fault,
        ),
    decreases decoder.chunk.len(),
{
    lemma_step_load(decoder, held);
    let step = next_step(decoder, held);
    if let Ok(Some(item)) = step.outcome {
        if let ItemView::Frame(FrameView::Headers(block)) = item {
            lemma_block_load(block);
        }
        if item is Skipped && step.decoder.chunk.len() < decoder.chunk.len() {
            only_a_large_field_section_is_excessive_load(step.decoder, step.held, finished);
        }
    }
}

// ---------------------------------------------------------------------------
// Cuts, and what is written
// ---------------------------------------------------------------------------

/// [`request_reading`] of a stream that goes on, taken as a whole.
#[verifier::opaque]
spec fn whole_reading(decoder: DecoderView, held: nat) -> Reading {
    request_reading(decoder, held, false)
}

/// What a step and the reading after it come to.
spec fn reading_after(step: Step) -> Reading {
    let (decoder, held) = (step.decoder, step.held);
    match step.outcome {
        Err(fault) => Reading { decoder, held, outcome: Err(fault) },
        Ok(None) => Reading { decoder, held, outcome: Ok(None) },
        Ok(Some(item)) => match item {
            ItemView::Frame(FrameView::Headers(block)) => Reading {
                decoder,
                held,
                outcome: match request_of_block(block) {
                    Ok(request) => Ok(Some(request)),
                    Err(fault) => Err(fault),
                },
            },
            ItemView::Skipped { kind: _ } => whole_reading(decoder, held),
            _ => Reading {
                decoder,
                held,
                outcome: Err(
                    Fault::connection(
                        Code::H3_FRAME_UNEXPECTED,
                        "a request stream that does not begin with HEADERS"@,
                    ),
                ),
            },
        },
    }
}

proof fn lemma_reading_after(decoder: DecoderView, held: nat)
    requires
        decoder.well_formed(),
    ensures
        whole_reading(decoder, held) == reading_after(whole_step(decoder, held)),
        whole_step(decoder, held).decoder.well_formed(),
        whole_step(decoder, held).outcome != Ok::<Option<ItemView>, Fault>(None) ==> whole_step(
            decoder,
            held,
        ).decoder.chunk.len() < decoder.chunk.len(),
{
    reveal(whole_reading);
    reveal(whole_step);
    lemma_step_well_formed(decoder, held);
}

proof fn lemma_request_cut(decoder: DecoderView, held: nat, more: Seq<u8>)
    requires
        decoder.well_formed(),
    ensures
        ({
            let first = whole_reading(decoder, held);
            let both = whole_reading(fed(decoder, decoder.chunk + more), held);
            if first.outcome == Ok::<Option<RequestView>, Fault>(None) {
                both == whole_reading(fed(first.decoder, more), first.held)
            } else {
                both.outcome == first.outcome && both.held == first.held
            }
        }),
    decreases decoder.chunk.len(),
{
    let short = whole_step(decoder, held);
    let longer = fed(decoder, decoder.chunk + more);
    lemma_reading_after(decoder, held);
    lemma_reading_after(longer, held);
    lemma_whole_step_cut(decoder, held, more);
    match short.outcome {
        Err(_) => {},
        Ok(None) => {
            lemma_reading_after(fed(short.decoder, more), short.held);
        },
        Ok(Some(item)) => {
            if item is Skipped {
                lemma_request_cut(short.decoder, short.held, more);
            } else if item is Data && more.len() == 0 {
                assert(decoder.chunk + more =~= decoder.chunk);
                assert(longer == decoder);
            }
        },
    }
}

/// Where the bytes of a request stream are cut into chunks makes no difference to
/// the request that is read from it or the fault that is found in it.
pub proof fn cuts_do_not_change_the_request(decoder: DecoderView, held: nat, more: Seq<u8>)
    requires
        decoder.well_formed(),
    ensures
        ({
            let first = request_reading(decoder, held, false);
            let both = request_reading(fed(decoder, decoder.chunk + more), held, false);
            if first.outcome == Ok::<Option<RequestView>, Fault>(None) {
                both == request_reading(fed(first.decoder, more), first.held, false)
            } else {
                both.outcome == first.outcome && both.held == first.held
            }
        }),
{
    lemma_request_cut(decoder, held, more);
    let first = whole_reading(decoder, held);
    lemma_whole_reading(decoder, held);
    lemma_whole_reading(fed(decoder, decoder.chunk + more), held);
    lemma_whole_reading(fed(first.decoder, more), first.held);
}

proof fn lemma_whole_reading(decoder: DecoderView, held: nat)
    ensures
        whole_reading(decoder, held) == request_reading(decoder, held, false),
{
    reveal(whole_reading);
}

/// A response reads back, whatever follows it: its HEADERS frame comes out whole,
/// and the field section in it decodes to the status and the fields.
pub proof fn responses_read_back(
    decoder: DecoderView,
    held: nat,
    status: Status,
    fields: Seq<FieldBytes>,
    rest: Seq<u8>,
)
    requires
        decoder.well_formed(),
        at_boundary(decoder),
        !(decoder.stream is Tunnel),
        section_bytes(response_fields(status, fields)).len() <= MAX_BUFFERED_FRAME,
        section_size(response_fields(status, fields)) <= MAX_FIELD_SECTION_SIZE,
        held + section_bytes(response_fields(status, fields)).len() <= HEADERS_BUFFER_BUDGET,
        decoder.chunk == header_bytes(
            HEADERS,
            section_bytes(response_fields(status, fields)).len() as u64,
        ) + section_bytes(response_fields(status, fields)) + rest,
    ensures
        next_step(decoder, held).outcome == Ok::<Option<ItemView>, Fault>(
            Some(
                ItemView::Frame(
                    FrameView::Headers(section_bytes(response_fields(status, fields))),
                ),
            ),
        ),
        next_step(decoder, held).decoder == fed(decoder, rest),
        next_step(decoder, held).held == held,
        section_fields(section_bytes(response_fields(status, fields)), MAX_FIELD_SECTION_SIZE)
            == Ok::<Seq<FieldBytes>, Fault>(response_fields(status, fields)),
{
    let section = response_fields(status, fields);
    let block = section_bytes(section);
    a_whole_frame_comes_out(decoder, held, HEADERS, block, rest);
    section_round_trip(section, MAX_FIELD_SECTION_SIZE);
}

/// What one end of a tunnel sends the other receives, whatever follows it.
pub proof fn tunnelled_bytes_are_received(
    decoder: DecoderView,
    held: nat,
    finished: bool,
    data: Seq<u8>,
    rest: Seq<u8>,
)
    requires
        decoder.well_formed(),
        at_boundary(decoder),
        0 < data.len() <= VARINT_MAX,
        decoder.chunk == header_bytes(DATA, data.len() as u64) + data + rest,
    ensures
        receiving(decoder, held, finished) == (Receiving {
            decoder: fed(decoder, rest),
            held,
            outcome: Ok(ReceivedView::Data(data)),
        }),
{
    a_whole_data_frame_comes_out(decoder, held, data, rest);
}

} // verus!
