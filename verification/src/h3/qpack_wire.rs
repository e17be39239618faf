//! What each form of a field line on the wire stands for (RFC 9204 section 4.5),
//! whoever wrote it: flags that change nothing, integers longer than they need to
//! be, and literals in either coding.

use vstd::arithmetic::power2::{lemma2_to64, lemma_pow2_adds, lemma_pow2_pos, pow2};
use vstd::prelude::*;
use vstd::utf8::encode_utf8;

use crate::h3::error::{Code, Fault};
use crate::h3::huffman_laws::{decodes_exactly_what_encodes_it, encodes};
use crate::h3::message::FieldBytes;
use crate::h3::qpack::{
    Field, STATIC_TABLE, after, borrowed_bytes, fields_bytes, int_at, int_bytes, int_tail,
    int_tail_bytes, lemma_above, line_at, lines_from, section_fields, section_prefix, string_at,
};

verus! {

/// The number that groups of seven bits make, the least significant group first.
pub open spec fn groups(bytes: Seq<u8>) -> nat
    decreases bytes.len(),
{
    if bytes.len() == 0 {
        0
    } else {
        (bytes[0] % 128) as nat + 128 * groups(bytes.drop_first())
    }
}

/// Whether every byte but the last has its highest bit set, and the last has not.
pub open spec fn continued(bytes: Seq<u8>) -> bool {
    &&& bytes.len() > 0
    &&& bytes.last() < 128
    &&& forall|i: int| 0 <= i < bytes.len() - 1 ==> #[trigger] bytes[i] >= 128
}

/// Whether `bytes` are an integer of `value` with `flags` above a prefix of
/// `prefix_bits` bits: one byte where the prefix holds it, else a full prefix and
/// groups of seven bits, of which there may be more than it takes.
pub open spec fn spells_int(bytes: Seq<u8>, prefix_bits: nat, flags: nat, value: nat) -> bool {
    let full = (pow2(prefix_bits) - 1) as nat;
    &&& bytes.len() > 0
    &&& if bytes.len() == 1 {
        value < full && bytes[0] == flags * pow2(prefix_bits) + value
    } else {
        &&& bytes[0] == flags * pow2(prefix_bits) + full
        &&& continued(bytes.drop_first())
        &&& bytes.len() <= 11
        &&& value == full + groups(bytes.drop_first())
    }
}

/// Whether a fault ends one stream as a section that could not be decoded.
pub open spec fn undecodable(fault: Fault) -> bool {
    fault.code == Code::QPACK_DECOMPRESSION_FAILED && !fault.fatal && !fault.field_section
}

/// Whether a fault ends the connection as a section that could not be decoded.
pub open spec fn breaks_decoding(fault: Fault) -> bool {
    fault.code == Code::QPACK_DECOMPRESSION_FAILED && fault.fatal && !fault.field_section
}

proof fn lemma_groups(tail: Seq<u8>, value: nat, count: nat, rest: Seq<u8>)
    requires
        continued(tail),
        count + tail.len() <= 10,
        value + groups(tail) * pow2(7 * count) <= u64::MAX,
    ensures
        int_tail(tail + rest, value, 7 * count) == Ok::<(u64, nat), Fault>(
            ((value + groups(tail) * pow2(7 * count)) as u64, tail.len()),
        ),
    decreases tail.len(),
{
    let bytes = tail + rest;
    let scale = pow2(7 * count);
    let low = (tail[0] % 128) as nat;
    let high = groups(tail.drop_first());
    assert(bytes[0] == tail[0]);
    lemma_pow2_adds(7 * count, 7);
    lemma2_to64();
    assert(7 * count + 7 == 7 * (count + 1));
    assert((low + 128 * high) * scale == low * scale + high * (scale * 128)) by (nonlinear_arith);
    assert(high * (scale * 128) >= 0) by (nonlinear_arith)
        requires
            high >= 0,
            scale >= 0,
    ;
    if tail.len() == 1 {
        assert(tail.drop_first() =~= Seq::<u8>::empty());
        assert(high == 0);
        assert(0 * (scale * 128) == 0) by (nonlinear_arith);
    } else {
        assert(tail[0] >= 128);
        let later = tail.drop_first();
        assert(continued(later)) by {
            assert(later.last() == tail.last());
            assert forall|i: int| 0 <= i < later.len() - 1 implies #[trigger] later[i] >= 128 by {
                assert(tail[i + 1] >= 128);
            }
        }
        lemma_groups(later, value + low * scale, count + 1, rest);
        assert(bytes.drop_first() =~= later + rest);
    }
}

proof fn lemma_groups_refused(tail: Seq<u8>, value: nat, count: nat, rest: Seq<u8>)
    requires
        continued(tail),
        count + tail.len() > 10 || value + groups(tail) * pow2(7 * count) > u64::MAX,
    ensures
        int_tail(tail + rest, value, 7 * count) matches Err(fault) && undecodable(fault),
    decreases tail.len(),
{
    let bytes = tail + rest;
    let scale = pow2(7 * count);
    let low = (tail[0] % 128) as nat;
    let high = groups(tail.drop_first());
    assert(bytes[0] == tail[0]);
    lemma_pow2_adds(7 * count, 7);
    lemma2_to64();
    assert(7 * count + 7 == 7 * (count + 1));
    assert((low + 128 * high) * scale == low * scale + high * (scale * 128)) by (nonlinear_arith);
    if tail.len() == 1 {
        assert(tail.drop_first() =~= Seq::<u8>::empty());
        assert(high == 0);
        assert(0 * (scale * 128) == 0) by (nonlinear_arith);
    } else {
        assert(tail[0] >= 128);
        let later = tail.drop_first();
        assert(continued(later)) by {
            assert(later.last() == tail.last());
            assert forall|i: int| 0 <= i < later.len() - 1 implies #[trigger] later[i] >= 128 by {
                assert(tail[i + 1] >= 128);
            }
        }
        if !(7 * count >= 64 || value + low * scale > u64::MAX) {
            lemma_groups_refused(later, value + low * scale, count + 1, rest);
            assert(bytes.drop_first() =~= later + rest);
        }
    }
}

/// The first byte of an integer, taken apart.
proof fn lemma_first_byte(prefix_bits: nat, flags: nat, low: nat)
    requires
        1 <= prefix_bits <= 8,
        flags * pow2(prefix_bits) < 256,
        low < pow2(prefix_bits),
    ensures
        flags * pow2(prefix_bits) + low < 256,
        (flags * pow2(prefix_bits) + low) / pow2(prefix_bits) == flags,
        (flags * pow2(prefix_bits) + low) % pow2(prefix_bits) == low,
        flags < 256,
{
    let size = pow2(prefix_bits);
    lemma_above(flags, prefix_bits);
    lemma_pow2_pos(prefix_bits);
    vstd::arithmetic::div_mod::lemma_small_mod(flags * size, 256);
    vstd::arithmetic::div_mod::lemma_fundamental_div_mod_converse(
        (flags * size + low) as int,
        size as int,
        flags as int,
        low as int,
    );
    assert(flags <= flags * size) by (nonlinear_arith)
        requires
            size >= 1,
            flags >= 0,
    ;
}

/// An integer is read as what it spells, in every length it may be written in, and
/// whatever follows it.
pub proof fn integers_are_read(
    bytes: Seq<u8>,
    prefix_bits: nat,
    flags: nat,
    value: nat,
    rest: Seq<u8>,
)
    requires
        1 <= prefix_bits <= 8,
        flags * pow2(prefix_bits) < 256,
        value <= u64::MAX,
        spells_int(bytes, prefix_bits, flags, value),
    ensures
        int_at(bytes + rest, prefix_bits) == Ok::<(u8, u64, nat), Fault>(
            (flags as u8, value as u64, bytes.len()),
        ),
{
    let size = pow2(prefix_bits);
    lemma_pow2_pos(prefix_bits);
    let all = bytes + rest;
    assert(all[0] == bytes[0]);
    if bytes.len() == 1 {
        lemma_first_byte(prefix_bits, flags, value);
    } else {
        lemma_first_byte(prefix_bits, flags, (size - 1) as nat);
        let tail = bytes.drop_first();
        lemma2_to64();
        assert(groups(tail) * pow2(7 * 0) == groups(tail)) by (nonlinear_arith)
            requires
                pow2(0) == 1,
        ;
        lemma_groups(tail, (size - 1) as nat, 0, rest);
        assert(all.drop_first() =~= tail + rest);
    }
}

/// An integer that does not fit, or takes more groups than any that does, ends the
/// stream.
pub proof fn integers_that_do_not_fit_are_refused(
    first: u8,
    tail: Seq<u8>,
    prefix_bits: nat,
    flags: nat,
    rest: Seq<u8>,
)
    requires
        1 <= prefix_bits <= 8,
        flags * pow2(prefix_bits) < 256,
        first == flags * pow2(prefix_bits) + pow2(prefix_bits) - 1,
        continued(tail),
        tail.len() > 10 || pow2(prefix_bits) - 1 + groups(tail) > u64::MAX,
    ensures
        int_at(seq![first] + tail + rest, prefix_bits) matches Err(fault) && undecodable(fault),
{
    let size = pow2(prefix_bits);
    lemma_pow2_pos(prefix_bits);
    let all = seq![first] + tail + rest;
    lemma_first_byte(prefix_bits, flags, (size - 1) as nat);
    lemma2_to64();
    assert(groups(tail) * pow2(7 * 0) == groups(tail)) by (nonlinear_arith)
        requires
            pow2(0) == 1,
    ;
    lemma_groups_refused(tail, (size - 1) as nat, 0, rest);
    assert(all[0] == first);
    assert(all.drop_first() =~= tail + rest);
}

proof fn lemma_tail_spelled(value: nat)
    ensures
        continued(int_tail_bytes(value)),
        groups(int_tail_bytes(value)) == value,
    decreases value,
{
    let bytes = int_tail_bytes(value);
    if value < 128 {
        assert(groups(bytes.drop_first()) == 0);
        assert(bytes[0] == value);
    } else {
        let later = int_tail_bytes(value / 128);
        lemma_tail_spelled(value / 128);
        assert(bytes.drop_first() =~= later);
        assert(bytes.last() == later.last());
        assert forall|i: int| 0 <= i < bytes.len() - 1 implies #[trigger] bytes[i] >= 128 by {
            if i > 0 {
                assert(bytes[i] == later[i - 1]);
            }
        }
        assert(bytes[0] == (value % 128 + 128) as u8);
        assert((value % 128 + 128) as u8 % 128 == value % 128);
        assert(value == value % 128 + 128 * (value / 128));
    }
}

proof fn lemma_tail_length(value: nat, bound: nat)
    requires
        value < pow2(7 * bound),
        bound > 0,
    ensures
        int_tail_bytes(value).len() <= bound,
    decreases bound,
{
    lemma2_to64();
    if value >= 128 {
        if bound == 1 {
            assert(pow2(7) == 128);
        } else {
            lemma_pow2_adds((7 * (bound - 1)) as nat, 7);
            assert(7 * (bound - 1) + 7 == 7 * bound);
            let scale = pow2((7 * (bound - 1)) as nat);
            assert(value / 128 < scale) by (nonlinear_arith)
                requires
                    value < scale * 128,
            ;
            lemma_tail_length(value / 128, (bound - 1) as nat);
        }
    }
}

/// What this server writes spells the integer it was asked to write.
pub proof fn written_integers_are_spelled(prefix_bits: nat, flags: u8, value: u64)
    requires
        1 <= prefix_bits <= 8,
        flags as nat * pow2(prefix_bits) < 256,
    ensures
        spells_int(int_bytes(prefix_bits, flags, value), prefix_bits, flags as nat, value as nat),
{
    let size = pow2(prefix_bits);
    lemma_pow2_pos(prefix_bits);
    let bytes = int_bytes(prefix_bits, flags, value);
    vstd::arithmetic::div_mod::lemma_small_mod(flags as nat * size, 256);
    if value + 1 < size {
        lemma_first_byte(prefix_bits, flags as nat, value as nat);
    } else {
        let over = (value + 1 - size) as nat;
        lemma_first_byte(prefix_bits, flags as nat, (size - 1) as nat);
        lemma_tail_spelled(over);
        lemma2_to64();
        lemma_pow2_adds(64, 6);
        assert(pow2(70) >= pow2(64)) by (nonlinear_arith)
            requires
                pow2(70) == pow2(64) * 64,
                pow2(64) >= 0,
        ;
        lemma_tail_length(over, 10);
        assert(bytes.drop_first() =~= int_tail_bytes(over));
    }
}

/// Whether `payload` is how `text` is sent: as it is, or Huffman-coded.
pub open spec fn carries(payload: Seq<u8>, coded: bool, text: Seq<u8>) -> bool {
    if coded {
        encodes(payload, text)
    } else {
        payload == text
    }
}

/// One where a literal is Huffman-coded.
pub open spec fn coding_bit(coded: bool) -> nat {
    if coded {
        1
    } else {
        0
    }
}

/// A literal is read as its text, in either coding, whatever the flags above its
/// coding bit and whatever follows it.
pub proof fn literals_are_read(
    head: Seq<u8>,
    payload: Seq<u8>,
    prefix_bits: nat,
    above: nat,
    coded: bool,
    text: Seq<u8>,
    rest: Seq<u8>,
)
    requires
        1 <= prefix_bits <= 7,
        (2 * above + coding_bit(coded)) * pow2(prefix_bits) < 256,
        payload.len() <= u64::MAX,
        spells_int(head, prefix_bits, 2 * above + coding_bit(coded), payload.len()),
        carries(payload, coded, text),
    ensures
        string_at(head + payload + rest, prefix_bits) == Ok::<(Seq<u8>, nat), Fault>(
            (text, head.len() + payload.len()),
        ),
{
    let bytes = head + payload + rest;
    let flags = 2 * above + coding_bit(coded);
    assert(bytes =~= head + (payload + rest));
    integers_are_read(head, prefix_bits, flags, payload.len(), payload + rest);
    lemma_pow2_pos(prefix_bits);
    assert(flags < 256) by (nonlinear_arith)
        requires
            flags * pow2(prefix_bits) < 256,
            pow2(prefix_bits) >= 1,
            flags >= 0,
    ;
    assert(bytes.subrange(head.len() as int, (head.len() + payload.len()) as int) =~= payload);
    assert((flags as u8) % 2 == coding_bit(coded));
    if coded {
        decodes_exactly_what_encodes_it(payload, text);
    }
}

/// A literal that is cut short ends the stream.
pub proof fn literals_cut_short_are_refused(
    head: Seq<u8>,
    payload: Seq<u8>,
    prefix_bits: nat,
    flags: nat,
    length: nat,
)
    requires
        1 <= prefix_bits <= 8,
        flags * pow2(prefix_bits) < 256,
        payload.len() < length <= u64::MAX,
        spells_int(head, prefix_bits, flags, length),
    ensures
        string_at(head + payload, prefix_bits) matches Err(fault) && undecodable(fault),
{
    integers_are_read(head, prefix_bits, flags, length, payload);
}

/// The name of a static table entry, in bytes.
pub open spec fn static_name(index: nat) -> Seq<u8> {
    encode_utf8(STATIC_TABLE@[index as int].0@)
}

/// The value of a static table entry, in bytes.
pub open spec fn static_value(index: nat) -> Seq<u8> {
    encode_utf8(STATIC_TABLE@[index as int].1@)
}

/// Where the first byte of an integer lies.
proof fn lemma_first_lies(head: Seq<u8>, prefix_bits: nat, flags: nat, value: nat)
    requires
        spells_int(head, prefix_bits, flags, value),
        1 <= prefix_bits <= 8,
    ensures
        head.len() > 0,
        flags * pow2(prefix_bits) <= head[0] < flags * pow2(prefix_bits) + pow2(prefix_bits),
{
    lemma_pow2_pos(prefix_bits);
}

proof fn lemma_named_line(
    bytes: Seq<u8>,
    flags: u8,
    index: u64,
    used: nat,
    value: Seq<u8>,
    more: nat,
)
    requires
        bytes.len() > 0,
        0x50 <= bytes[0] <= 0x5f || 0x70 <= bytes[0] <= 0x7f,
        int_at(bytes, 4) == Ok::<(u8, u64, nat), Fault>((flags, index, used)),
        string_at(after(bytes, used), 7) == Ok::<(Seq<u8>, nat), Fault>((value, more)),
    ensures
        index < 99 ==> line_at(bytes) == Ok::<(FieldBytes, nat), Fault>(
            ((static_name(index as nat), value), used + more),
        ),
        index >= 99 ==> (line_at(bytes) matches Err(fault) && breaks_decoding(fault)),
{
    assert(bytes[0] / 16 % 2 == 1);
}

proof fn lemma_literal_line(
    bytes: Seq<u8>,
    name: Seq<u8>,
    used: nat,
    value: Seq<u8>,
    more: nat,
)
    requires
        bytes.len() > 0,
        0x20 <= bytes[0] <= 0x3f,
        string_at(bytes, 3) == Ok::<(Seq<u8>, nat), Fault>((name, used)),
        string_at(after(bytes, used), 7) == Ok::<(Seq<u8>, nat), Fault>((value, more)),
    ensures
        line_at(bytes) == Ok::<(FieldBytes, nat), Fault>(((name, value), used + more)),
{
}

/// Four pieces, one behind the other.
proof fn lemma_pieces(a: Seq<u8>, b: Seq<u8>, c: Seq<u8>, d: Seq<u8>)
    ensures
        a + b + c + d == a + (b + c + d),
        after(a + b + c + d, a.len()) == b + c + d,
        a.len() > 0 ==> (a + b + c + d)[0] == a[0],
{
    assert(a + b + c + d =~= a + (b + c + d));
    assert(after(a + b + c + d, a.len()) =~= b + c + d);
}

/// `11` and an index is the field that the static table has there, and a fault of
/// the connection where it has none.
pub proof fn indexed_lines_are_read(head: Seq<u8>, index: nat, rest: Seq<u8>)
    requires
        index <= u64::MAX,
        spells_int(head, 6, 0b11, index),
    ensures
        index < 99 ==> line_at(head + rest) == Ok::<(FieldBytes, nat), Fault>(
            ((static_name(index), static_value(index)), head.len()),
        ),
        index >= 99 ==> (line_at(head + rest) matches Err(fault) && breaks_decoding(fault)),
{
    lemma2_to64();
    integers_are_read(head, 6, 0b11, index, rest);
    assert((head + rest)[0] == head[0]);
    assert(head[0] >= 0xc0);
}

/// `01`, a bit that is of no account, `1`, and an index, and behind it a value: the
/// field with the name that the static table has there and that value.
pub proof fn named_lines_are_read(
    head: Seq<u8>,
    never_indexed: bool,
    index: nat,
    value_head: Seq<u8>,
    payload: Seq<u8>,
    coded: bool,
    value: Seq<u8>,
    rest: Seq<u8>,
)
    requires
        index <= u64::MAX,
        spells_int(
            head,
            4,
            if never_indexed {
                0b0111
            } else {
                0b0101
            },
            index,
        ),
        payload.len() <= u64::MAX,
        spells_int(value_head, 7, coding_bit(coded), payload.len()),
        carries(payload, coded, value),
    ensures
        index < 99 ==> line_at(head + value_head + payload + rest) == Ok::<
            (FieldBytes, nat),
            Fault,
        >(((static_name(index), value), head.len() + value_head.len() + payload.len())),
        index >= 99 ==> (line_at(head + value_head + payload + rest) matches Err(fault)
            && breaks_decoding(fault)),
{
    let flags: nat = if never_indexed {
        0b0111
    } else {
        0b0101
    };
    let bytes = head + value_head + payload + rest;
    let behind = value_head + payload + rest;
    lemma_pieces(head, value_head, payload, rest);
    assert(pow2(4) == 16 && pow2(7) == 128) by {
        lemma2_to64();
    }
    lemma_first_lies(head, 4, flags, index);
    integers_are_read(head, 4, flags, index, behind);
    literals_are_read(value_head, payload, 7, 0, coded, value, rest);
    lemma_named_line(
        bytes,
        flags as u8,
        index as u64,
        head.len(),
        value,
        value_head.len() + payload.len(),
    );
}

/// `001`, a bit that is of no account, and a name, and behind it a value: the field
/// of that name and value.
pub proof fn literal_lines_are_read(
    name_head: Seq<u8>,
    never_indexed: bool,
    name_payload: Seq<u8>,
    name_coded: bool,
    name: Seq<u8>,
    value_head: Seq<u8>,
    payload: Seq<u8>,
    coded: bool,
    value: Seq<u8>,
    rest: Seq<u8>,
)
    requires
        name_payload.len() <= u64::MAX,
        spells_int(
            name_head,
            3,
            (if never_indexed {
                6nat
            } else {
                4nat
            }) + coding_bit(name_coded),
            name_payload.len(),
        ),
        carries(name_payload, name_coded, name),
        payload.len() <= u64::MAX,
        spells_int(value_head, 7, coding_bit(coded), payload.len()),
        carries(payload, coded, value),
    ensures
        line_at(name_head + name_payload + value_head + payload + rest) == Ok::<
            (FieldBytes, nat),
            Fault,
        >(
            (
                (name, value),
                name_head.len() + name_payload.len() + value_head.len() + payload.len(),
            ),
        ),
{
    let above: nat = if never_indexed {
        0b0011
    } else {
        0b0010
    };
    let bytes = name_head + name_payload + value_head + payload + rest;
    let behind = value_head + payload + rest;
    let front = name_head + name_payload;
    lemma_pieces(front, value_head, payload, rest);
    assert(pow2(3) == 8 && pow2(7) == 128) by {
        lemma2_to64();
    }
    lemma_first_lies(name_head, 3, 2 * above + coding_bit(name_coded), name_payload.len());
    assert(front[0] == name_head[0]);
    literals_are_read(name_head, name_payload, 3, above, name_coded, name, behind);
    literals_are_read(value_head, payload, 7, 0, coded, value, rest);
    lemma_literal_line(bytes, name, front.len(), value, value_head.len() + payload.len());
}

/// Every form that refers to the dynamic table is a fault of the connection: an
/// index or a name reference without its static bit, and both that count from the
/// base.
pub proof fn dynamic_lines_are_refused(head: Seq<u8>, never_indexed: bool, index: nat, rest: Seq<u8>)
    requires
        index <= u64::MAX,
        spells_int(head, 6, 0b10, index) || spells_int(
            head,
            4,
            if never_indexed {
                0b0110
            } else {
                0b0100
            },
            index,
        ) || (head.len() > 0 && head[0] < 0x20),
    ensures
        line_at(head + rest) matches Err(fault) && breaks_decoding(fault),
{
    lemma2_to64();
    assert((head + rest)[0] == head[0]);
    if spells_int(head, 6, 0b10, index) {
        integers_are_read(head, 6, 0b10, index, rest);
        assert(0x80 <= head[0] < 0xc0);
    } else if head[0] >= 0x20 {
        integers_are_read(
            head,
            4,
            if never_indexed {
                0b0110
            } else {
                0b0100
            },
            index,
            rest,
        );
        assert(0x40 <= head[0] <= 0x4f || 0x60 <= head[0] <= 0x6f);
    }
}

/// Whether `wire` is a whole line that says `field`, whatever follows it.
pub open spec fn says(wire: Seq<u8>, field: FieldBytes) -> bool {
    &&& wire.len() > 0
    &&& forall|rest: Seq<u8>| #[trigger]
        line_at(wire + rest) == Ok::<(FieldBytes, nat), Fault>((field, wire.len()))
}

/// Lines, one behind the other.
pub open spec fn chained(wires: Seq<Seq<u8>>) -> Seq<u8>
    decreases wires.len(),
{
    if wires.len() == 0 {
        Seq::empty()
    } else {
        wires[0] + chained(wires.drop_first())
    }
}

/// What fields count for together: each its name, its value and thirty-two.
pub open spec fn counted_size(fields: Seq<FieldBytes>) -> nat
    decreases fields.len(),
{
    if fields.len() == 0 {
        0
    } else {
        fields[0].0.len() + fields[0].1.len() + 32 + counted_size(fields.drop_first())
    }
}

/// Whether a fault is that of a field section that is too large.
pub open spec fn is_too_large(fault: Fault) -> bool {
    fault.code == Code::H3_EXCESSIVE_LOAD && !fault.fatal && fault.field_section
}

/// [`lines_from`], taken as a whole.
#[verifier::opaque]
spec fn read_on(
    bytes: Seq<u8>,
    size: nat,
    limit: u64,
    done: Seq<FieldBytes>,
) -> Result<Seq<FieldBytes>, Fault> {
    lines_from(bytes, size, limit, done)
}

proof fn lemma_line_taken(
    wire: Seq<u8>,
    field: FieldBytes,
    rest: Seq<u8>,
    size: nat,
    limit: u64,
    done: Seq<FieldBytes>,
)
    requires
        says(wire, field),
    ensures
        ({
            let grown = size + field.0.len() + field.1.len() + 32;
            let taken = read_on(wire + rest, size, limit, done);
            if grown <= limit {
                taken == read_on(rest, grown, limit, done.push(field))
            } else {
                taken matches Err(fault) && is_too_large(fault)
            }
        }),
{
    reveal(read_on);
    let bytes = wire + rest;
    assert(line_at(bytes) == Ok::<(FieldBytes, nat), Fault>((field, wire.len())));
    assert(after(bytes, wire.len()) =~= rest);
}

proof fn lemma_chained(
    wires: Seq<Seq<u8>>,
    fields: Seq<FieldBytes>,
    size: nat,
    limit: u64,
    done: Seq<FieldBytes>,
    tail: Seq<u8>,
)
    requires
        wires.len() == fields.len(),
        forall|i: int| 0 <= i < wires.len() ==> says(#[trigger] wires[i], fields[i]),
    ensures
        ({
            let whole = size + counted_size(fields);
            let read = read_on(chained(wires) + tail, size, limit, done);
            &&& whole <= limit ==> read == read_on(tail, whole, limit, done + fields)
            &&& fields.len() > 0 && whole > limit ==> (read matches Err(fault) && is_too_large(
                fault,
            ))
        }),
    decreases wires.len(),
{
    let bytes = chained(wires) + tail;
    if wires.len() == 0 {
        assert(bytes =~= tail);
        assert(done + fields =~= done);
    } else {
        let later = wires.drop_first();
        let others = fields.drop_first();
        let rest = chained(later) + tail;
        assert(bytes =~= wires[0] + rest);
        lemma_line_taken(wires[0], fields[0], rest, size, limit, done);
        let grown = size + fields[0].0.len() + fields[0].1.len() + 32;
        assert forall|i: int| 0 <= i < later.len() implies says(#[trigger] later[i], others[i]) by {
            assert(says(wires[i + 1], fields[i + 1]));
        }
        lemma_chained(later, others, grown, limit, done.push(fields[0]), tail);
        assert(done.push(fields[0]) + others =~= done + fields);
        assert(size + counted_size(fields) == grown + counted_size(others));
        if others.len() == 0 {
            assert(counted_size(others) == 0);
        }
    }
}

proof fn lemma_prefix(count_head: Seq<u8>, base_head: Seq<u8>, base: nat, rest: Seq<u8>)
    requires
        spells_int(count_head, 8, 0, 0),
        base <= u64::MAX,
        spells_int(base_head, 7, 0, base),
    ensures
        section_prefix(count_head + base_head + rest) == Ok::<nat, Fault>(
            count_head.len() + base_head.len(),
        ),
        after(count_head + base_head + rest, count_head.len() + base_head.len()) == rest,
{
    lemma2_to64();
    let block = count_head + base_head + rest;
    assert(block =~= count_head + (base_head + rest));
    integers_are_read(count_head, 8, 0, 0, base_head + rest);
    assert(after(block, count_head.len()) =~= base_head + rest);
    integers_are_read(base_head, 7, 0, base, rest);
    assert(after(block, count_head.len() + base_head.len()) =~= rest);
}

/// A section is its lines in order, whatever the base says: all of their fields
/// where these count for no more than the limit together, and too large where they
/// count for more.
pub proof fn sections_are_their_lines(
    count_head: Seq<u8>,
    base_head: Seq<u8>,
    base: nat,
    wires: Seq<Seq<u8>>,
    fields: Seq<FieldBytes>,
    limit: u64,
)
    requires
        spells_int(count_head, 8, 0, 0),
        base <= u64::MAX,
        spells_int(base_head, 7, 0, base),
        wires.len() == fields.len(),
        forall|i: int| 0 <= i < wires.len() ==> says(#[trigger] wires[i], fields[i]),
    ensures
        counted_size(fields) <= limit ==> section_fields(
            count_head + base_head + chained(wires),
            limit,
        ) == Ok::<Seq<FieldBytes>, Fault>(fields),
        counted_size(fields) > limit ==> (section_fields(
            count_head + base_head + chained(wires),
            limit,
        ) matches Err(fault) && is_too_large(fault)),
{
    lemma_prefix(count_head, base_head, base, chained(wires));
    reveal(read_on);
    lemma_chained(wires, fields, 0, limit, Seq::empty(), Seq::empty());
    assert(chained(wires) + Seq::<u8>::empty() =~= chained(wires));
    assert(Seq::<FieldBytes>::empty() + fields =~= fields);
}

/// The first line that is refused is what its section is refused for, unless the
/// fields before it are too large.
pub proof fn a_bad_line_refuses_its_section(
    count_head: Seq<u8>,
    base_head: Seq<u8>,
    base: nat,
    wires: Seq<Seq<u8>>,
    fields: Seq<FieldBytes>,
    bad: Seq<u8>,
    limit: u64,
)
    requires
        spells_int(count_head, 8, 0, 0),
        base <= u64::MAX,
        spells_int(base_head, 7, 0, base),
        wires.len() == fields.len(),
        forall|i: int| 0 <= i < wires.len() ==> says(#[trigger] wires[i], fields[i]),
        counted_size(fields) <= limit,
        bad.len() > 0,
        line_at(bad) is Err,
    ensures
        section_fields(count_head + base_head + (chained(wires) + bad), limit) == Err::<
            Seq<FieldBytes>,
            Fault,
        >(line_at(bad)->Err_0),
{
    lemma_prefix(count_head, base_head, base, chained(wires) + bad);
    reveal(read_on);
    lemma_chained(wires, fields, 0, limit, Seq::empty(), bad);
}

/// A section that needs the dynamic table is a fault of the connection: one with a
/// Required Insert Count, or with a base before it.
pub proof fn sections_that_need_the_dynamic_table_are_refused(
    count_head: Seq<u8>,
    count: nat,
    base_head: Seq<u8>,
    sign: bool,
    base: nat,
    rest: Seq<u8>,
    limit: u64,
)
    requires
        count <= u64::MAX,
        base <= u64::MAX,
        spells_int(count_head, 8, 0, count),
        spells_int(
            base_head,
            7,
            if sign {
                1
            } else {
                0
            },
            base,
        ),
        count > 0 || sign,
    ensures
        section_fields(count_head + base_head + rest, limit) matches Err(fault) && breaks_decoding(
            fault,
        ),
{
    lemma2_to64();
    let block = count_head + base_head + rest;
    assert(block =~= count_head + (base_head + rest));
    integers_are_read(count_head, 8, 0, count, base_head + rest);
    assert(after(block, count_head.len()) =~= base_head + rest);
    integers_are_read(
        base_head,
        7,
        if sign {
            1
        } else {
            0
        },
        base,
        rest,
    );
}

/// The fields of a list are all of them, in order, whether they were decoded or are
/// to be written.
pub proof fn lists_keep_every_field(decoded: Seq<Field>, borrowed: Seq<(&[u8], &[u8])>)
    ensures
        fields_bytes(decoded).len() == decoded.len(),
        forall|i: int|
            0 <= i < decoded.len() ==> (#[trigger] fields_bytes(decoded)[i]).0 == decoded[i].name@
                && fields_bytes(decoded)[i].1 == decoded[i].value@,
        borrowed_bytes(borrowed).len() == borrowed.len(),
        forall|i: int|
            0 <= i < borrowed.len() ==> (#[trigger] borrowed_bytes(borrowed)[i]).0
                == borrowed[i].0@ && borrowed_bytes(borrowed)[i].1 == borrowed[i].1@,
{
}

} // verus!
