//! What this server writes comes back out of its own decoder.

use vstd::arithmetic::power2::{lemma2_to64, lemma_pow2_adds, lemma_pow2_pos, pow2};
use vstd::prelude::*;

use crate::h3::error::Fault;
use crate::h3::message::FieldBytes;
use crate::h3::qpack::{
    STATIC_ENTRIES, after, entry, field_size, first_entry, first_name, int_at, int_bytes, int_tail,
    int_tail_bytes, lemma_above, line_at, line_bytes, lines_bytes, lines_from, section_bytes,
    section_fields, section_prefix, string_at, string_bytes,
};

verus! {

proof fn lemma_tail_round_trip(value: nat, read: nat, shift: nat, rest: Seq<u8>)
    requires
        read + value * pow2(shift) <= u64::MAX,
        shift < 64,
    ensures
        int_tail(int_tail_bytes(value) + rest, read, shift) == Ok::<(u64, nat), Fault>(
            ((read + value * pow2(shift)) as u64, int_tail_bytes(value).len()),
        ),
    decreases value,
{
    let bytes = int_tail_bytes(value) + rest;
    lemma_pow2_pos(shift);
    let scale = pow2(shift);
    if value < 128 {
        assert(bytes[0] == value as u8);
    } else {
        let low = value % 128;
        let high = value / 128;
        assert(bytes[0] == (low + 128) as u8);
        assert(bytes[0] % 128 == low);
        lemma_pow2_adds(shift, 7);
        lemma2_to64();
        assert(low * scale + high * (scale * 128) == value * scale) by (nonlinear_arith)
            requires
                value == 128 * high + low,
        ;
        assert(high * (scale * 128) >= scale * 128) by (nonlinear_arith)
            requires
                high >= 1,
                scale >= 0,
        ;
        assert(low * scale >= 0) by (nonlinear_arith)
            requires
                low >= 0,
                scale >= 0,
        ;
        if shift + 7 >= 64 {
            if shift + 7 > 64 {
                vstd::arithmetic::power2::lemma_pow2_strictly_increases(64, shift + 7);
            }
            assert(false);
        }
        let grown = read + low * scale;
        lemma_tail_round_trip(high, grown, shift + 7, rest);
        assert(bytes.drop_first() =~= int_tail_bytes(high) + rest);
    }
}

proof fn lemma_int_round_trip(prefix_bits: nat, flags: u8, value: u64, rest: Seq<u8>)
    requires
        1 <= prefix_bits <= 8,
        flags as nat * pow2(prefix_bits) < 256,
    ensures
        int_at(int_bytes(prefix_bits, flags, value) + rest, prefix_bits) == Ok::<
            (u8, u64, nat),
            Fault,
        >((flags, value, int_bytes(prefix_bits, flags, value).len())),
{
    let size = pow2(prefix_bits);
    let bytes = int_bytes(prefix_bits, flags, value) + rest;
    let above = flags as nat * size % 256;
    lemma_above(flags as nat, prefix_bits);
    lemma_pow2_pos(prefix_bits);
    let low: nat = if value + 1 < size {
        value as nat
    } else {
        (size - 1) as nat
    };
    assert(bytes[0] == (above + low) as u8);
    assert(above + low < 256);
    vstd::arithmetic::div_mod::lemma_fundamental_div_mod(above as int, size as int);
    vstd::arithmetic::div_mod::lemma_fundamental_div_mod_converse(
        (above + low) as int,
        size as int,
        flags as int,
        low as int,
    );
    if value + 1 >= size {
        let over = (value + 1 - size) as nat;
        lemma2_to64();
        assert(over * pow2(0) == over) by (nonlinear_arith)
            requires
                pow2(0) == 1,
        ;
        lemma_tail_round_trip(over, low, 0, rest);
        assert(bytes.drop_first() =~= int_tail_bytes(over) + rest);
    }
}

/// A prefixed integer reads back as the flags and value it was written from,
/// whatever follows it, and leaves what follows it to be read.
pub proof fn int_round_trip(prefix_bits: nat, flags: u8, value: u64, rest: Seq<u8>)
    requires
        1 <= prefix_bits <= 8,
        flags as nat * pow2(prefix_bits) < 256,
    ensures
        ({
            let integer = int_bytes(prefix_bits, flags, value);
            &&& int_at(integer + rest, prefix_bits) == Ok::<(u8, u64, nat), Fault>(
                (flags, value, integer.len()),
            )
            &&& after(integer + rest, integer.len()) == rest
        }),
{
    let integer = int_bytes(prefix_bits, flags, value);
    lemma_int_round_trip(prefix_bits, flags, value, rest);
    assert(after(integer + rest, integer.len()) =~= rest);
}

/// A string literal reads back as the text it was written from, whatever follows
/// it.
pub proof fn string_round_trip(prefix_bits: nat, flags: u8, text: Seq<u8>, rest: Seq<u8>)
    requires
        1 <= prefix_bits <= 7,
        flags < 128,
        2 * flags as nat * pow2(prefix_bits) < 256,
        text.len() <= u64::MAX,
    ensures
        string_at(string_bytes(prefix_bits, flags, text) + rest, prefix_bits) == Ok::<
            (Seq<u8>, nat),
            Fault,
        >((text, string_bytes(prefix_bits, flags, text).len())),
{
    let head = int_bytes(prefix_bits, (2 * (flags % 128)) as u8, text.len() as u64);
    let bytes = string_bytes(prefix_bits, flags, text) + rest;
    assert(bytes =~= head + (text + rest));
    lemma_int_round_trip(prefix_bits, (2 * (flags % 128)) as u8, text.len() as u64, text + rest);
    assert(bytes.subrange(head.len() as int, (head.len() + text.len()) as int) =~= text);
}

proof fn lemma_first_entry(field: FieldBytes, from: nat)
    ensures
        first_entry(field, from) matches Some(index) ==> index < STATIC_ENTRIES && entry(
            index as int,
        ) == field,
    decreases STATIC_ENTRIES - from,
{
    if from < STATIC_ENTRIES && entry(from as int) != field {
        lemma_first_entry(field, from + 1);
    }
}

proof fn lemma_first_name(name: Seq<u8>, from: nat)
    ensures
        first_name(name, from) matches Some(index) ==> index < STATIC_ENTRIES && entry(
            index as int,
        ).0 == name,
    decreases STATIC_ENTRIES - from,
{
    if from < STATIC_ENTRIES && entry(from as int).0 != name {
        lemma_first_name(name, from + 1);
    }
}

proof fn lemma_indexed_round_trip(field: FieldBytes, rest: Seq<u8>)
    requires
        first_entry(field, 0) is Some,
    ensures
        line_at(line_bytes(field) + rest) == Ok::<(FieldBytes, nat), Fault>(
            (field, line_bytes(field).len()),
        ),
        line_bytes(field).len() > 0,
{
    let bytes = line_bytes(field) + rest;
    lemma2_to64();
    lemma_first_entry(field, 0);
    let index = first_entry(field, 0)->0;
    lemma_int_round_trip(6, 0b11, index as u64, rest);
    assert(bytes[0] >= 0xc0);
}

proof fn lemma_named_round_trip(field: FieldBytes, rest: Seq<u8>)
    requires
        field.1.len() <= u64::MAX,
        first_entry(field, 0) is None,
        first_name(field.0, 0) is Some,
    ensures
        line_at(line_bytes(field) + rest) == Ok::<(FieldBytes, nat), Fault>(
            (field, line_bytes(field).len()),
        ),
        line_bytes(field).len() > 0,
{
    let bytes = line_bytes(field) + rest;
    lemma2_to64();
    lemma_first_name(field.0, 0);
    let value = string_bytes(7, 0, field.1);
    string_round_trip(7, 0, field.1, rest);
    let index = first_name(field.0, 0)->0;
    let head = int_bytes(4, 0b0101, index as u64);
    lemma_int_round_trip(4, 0b0101, index as u64, value + rest);
    assert(bytes =~= head + (value + rest));
    assert(after(bytes, head.len()) =~= value + rest);
    assert(0x50 <= bytes[0] <= 0x5f);
    assert(bytes[0] / 16 % 2 == 1);
}

proof fn lemma_literal_round_trip(field: FieldBytes, rest: Seq<u8>)
    requires
        field.0.len() <= u64::MAX,
        field.1.len() <= u64::MAX,
        first_entry(field, 0) is None,
        first_name(field.0, 0) is None,
    ensures
        line_at(line_bytes(field) + rest) == Ok::<(FieldBytes, nat), Fault>(
            (field, line_bytes(field).len()),
        ),
        line_bytes(field).len() > 0,
{
    let bytes = line_bytes(field) + rest;
    lemma2_to64();
    let value = string_bytes(7, 0, field.1);
    string_round_trip(7, 0, field.1, rest);
    let head = string_bytes(3, 0b0010, field.0);
    string_round_trip(3, 0b0010, field.0, value + rest);
    assert(bytes =~= head + (value + rest));
    assert(after(bytes, head.len()) =~= value + rest);
    assert(0x20 <= bytes[0] <= 0x27);
}

/// A field line reads back as the field it was written from, whatever follows it.
pub proof fn line_round_trip(field: FieldBytes, rest: Seq<u8>)
    requires
        field.0.len() <= u64::MAX,
        field.1.len() <= u64::MAX,
    ensures
        line_at(line_bytes(field) + rest) == Ok::<(FieldBytes, nat), Fault>(
            (field, line_bytes(field).len()),
        ),
        line_bytes(field).len() > 0,
{
    if first_entry(field, 0) is Some {
        lemma_indexed_round_trip(field, rest);
    } else if first_name(field.0, 0) is Some {
        lemma_named_round_trip(field, rest);
    } else {
        lemma_literal_round_trip(field, rest);
    }
}

/// The size of a field list (RFC 9114 section 4.2.2).
pub open spec fn section_size(fields: Seq<FieldBytes>) -> nat
    decreases fields.len(),
{
    if fields.len() == 0 {
        0
    } else {
        field_size(fields[0]) + section_size(fields.drop_first())
    }
}

proof fn lemma_lines_front(fields: Seq<FieldBytes>)
    requires
        fields.len() > 0,
    ensures
        lines_bytes(fields) == line_bytes(fields[0]) + lines_bytes(fields.drop_first()),
    decreases fields.len(),
{
    let front = line_bytes(fields[0]);
    let tail = fields.drop_first();
    if fields.len() == 1 {
        assert(fields.drop_last() =~= Seq::<FieldBytes>::empty());
        assert(tail =~= Seq::<FieldBytes>::empty());
        assert(lines_bytes(fields) =~= front + lines_bytes(tail));
    } else {
        lemma_lines_front(fields.drop_last());
        assert(fields.drop_last().drop_first() =~= tail.drop_last());
        assert(lines_bytes(fields) =~= front + lines_bytes(tail));
    }
}

proof fn lemma_lines_round_trip(
    fields: Seq<FieldBytes>,
    size: nat,
    limit: u64,
    done: Seq<FieldBytes>,
)
    requires
        forall|i: int|
            0 <= i < fields.len() ==> (#[trigger] fields[i]).0.len() <= u64::MAX
                && fields[i].1.len() <= u64::MAX,
        size + section_size(fields) <= limit,
    ensures
        lines_from(lines_bytes(fields), size, limit, done) == Ok::<Seq<FieldBytes>, Fault>(
            done + fields,
        ),
    decreases fields.len(),
{
    let bytes = lines_bytes(fields);
    if fields.len() == 0 {
        assert(done + fields =~= done);
    } else {
        let tail = fields.drop_first();
        lemma_lines_front(fields);
        line_round_trip(fields[0], lines_bytes(tail));
        let used = line_bytes(fields[0]).len();
        assert(after(bytes, used) =~= lines_bytes(tail));
        assert forall|i: int| 0 <= i < tail.len() implies (#[trigger] tail[i]).0.len() <= u64::MAX
            && tail[i].1.len() <= u64::MAX by {
            assert(tail[i] == fields[i + 1]);
        }
        lemma_lines_round_trip(tail, size + field_size(fields[0]), limit, done.push(fields[0]));
        assert(done.push(fields[0]) + tail =~= done + fields);
    }
}

proof fn lemma_sizes(fields: Seq<FieldBytes>)
    ensures
        forall|i: int|
            0 <= i < fields.len() ==> (#[trigger] fields[i]).0.len() <= section_size(fields)
                && fields[i].1.len() <= section_size(fields),
    decreases fields.len(),
{
    if fields.len() > 0 {
        let tail = fields.drop_first();
        lemma_sizes(tail);
        assert forall|i: int| 0 <= i < fields.len() implies (#[trigger] fields[i]).0.len()
            <= section_size(fields) && fields[i].1.len() <= section_size(fields) by {
            if i > 0 {
                assert(tail[i - 1] == fields[i]);
            }
        }
    }
}

/// A field section within the limit reads back as the fields it was written from.
pub proof fn section_round_trip(fields: Seq<FieldBytes>, limit: u64)
    requires
        section_size(fields) <= limit,
    ensures
        section_bytes(fields).len() >= 2,
        section_bytes(fields)[0] == 0 && section_bytes(fields)[1] == 0,
        section_fields(section_bytes(fields), limit) == Ok::<Seq<FieldBytes>, Fault>(fields),
{
    let block = section_bytes(fields);
    lemma2_to64();
    assert(block[0] == 0 && block[1] == 0);
    assert(after(block, 1)[0] == 0);
    assert(section_prefix(block) == Ok::<nat, Fault>(2));
    assert(after(block, 2) =~= lines_bytes(fields));
    lemma_sizes(fields);
    lemma_lines_round_trip(fields, 0, limit, Seq::empty());
    assert(Seq::<FieldBytes>::empty() + fields =~= fields);
}

proof fn lemma_lines_within_limit(bytes: Seq<u8>, size: nat, limit: u64, done: Seq<FieldBytes>)
    requires
        size <= limit,
        section_size(done) == size,
    ensures
        lines_from(bytes, size, limit, done) matches Ok(fields) ==> section_size(fields) <= limit,
    decreases bytes.len(),
{
    if bytes.len() > 0 && line_at(bytes) is Ok {
        let (field, used) = line_at(bytes)->Ok_0;
        if size + field_size(field) <= limit && 0 < used <= bytes.len() {
            lemma_section_size_push(done, field);
            lemma_lines_within_limit(
                after(bytes, used),
                size + field_size(field),
                limit,
                done.push(field),
            );
        }
    }
}

proof fn lemma_section_size_push(fields: Seq<FieldBytes>, field: FieldBytes)
    ensures
        section_size(fields.push(field)) == section_size(fields) + field_size(field),
    decreases fields.len(),
{
    let longer = fields.push(field);
    if fields.len() == 0 {
        assert(longer.drop_first() =~= fields);
    } else {
        lemma_section_size_push(fields.drop_first(), field);
        assert(longer.drop_first() =~= fields.drop_first().push(field));
    }
}

/// A section that is decoded is within the limit, whatever it was sent as.
pub proof fn decoded_sections_are_within_the_limit(block: Seq<u8>, limit: u64)
    ensures
        section_fields(block, limit) matches Ok(fields) ==> section_size(fields) <= limit,
{
    if section_prefix(block) is Ok {
        lemma_lines_within_limit(
            after(block, section_prefix(block)->Ok_0),
            0,
            limit,
            Seq::empty(),
        );
    }
}

} // verus!
