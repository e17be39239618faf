//! Variable-length integers and HTTP Datagrams by their bytes (RFC 9000 section 16,
//! RFC 9297 section 2.1), whoever wrote them.

use vstd::prelude::*;

use crate::datagram::{
    DatagramView, DecodeError, VARINT_MAX, big_endian, datagram_of, varint_bytes, varint_prefix,
    varint_round_trip, varint_size, varint_width,
};

verus! {

/// Whether `bytes` are `value` in one, two, four or eight bytes, as their two
/// highest bits tell: they need not be the fewest.
pub open spec fn spells(bytes: Seq<u8>, value: nat) -> bool {
    ||| bytes.len() == 1 && bytes[0] < 0x40 && value == bytes[0]
    ||| bytes.len() == 2 && 0x40 <= bytes[0] < 0x80 && value == (bytes[0] - 0x40) * 0x100 + bytes[1]
    ||| bytes.len() == 4 && 0x80 <= bytes[0] < 0xc0 && value == (bytes[0] - 0x80) * 0x100_0000
        + bytes[1] * 0x1_0000 + bytes[2] * 0x100 + bytes[3]
    ||| bytes.len() == 8 && 0xc0 <= bytes[0] && value == (bytes[0] - 0xc0) * 0x100_0000_0000_0000
        + bytes[1] * 0x1_0000_0000_0000 + bytes[2] * 0x100_0000_0000 + bytes[3] * 0x1_0000_0000
        + bytes[4] * 0x100_0000 + bytes[5] * 0x1_0000 + bytes[6] * 0x100 + bytes[7]
}

/// Whether there are fewer bytes than the first of them says there should be.
pub open spec fn cut_short(bytes: Seq<u8>) -> bool {
    ||| bytes.len() == 0
    ||| bytes.len() < 2 && bytes[0] >= 0x40
    ||| bytes.len() < 4 && bytes[0] >= 0x80
    ||| bytes.len() < 8 && bytes[0] >= 0xc0
}

/// An integer is read as what it spells, in every length, whatever follows it.
pub proof fn integers_are_read(bytes: Seq<u8>, value: nat, rest: Seq<u8>)
    requires
        spells(bytes, value),
    ensures
        value <= VARINT_MAX,
        varint_prefix(bytes + rest) == Some((value as u64, bytes.len())),
{
    let all = bytes + rest;
    let width = varint_width(all[0]);
    assert(all[0] == bytes[0]);
    let low = all.subrange(0, width as int).update(0, (all[0] % 64) as u8);
    assert(low =~= bytes.update(0, (bytes[0] % 64) as u8));
    lemma_big_endian_of(low);
}

/// What bytes say, the most significant first.
proof fn lemma_big_endian_of(low: Seq<u8>)
    requires
        low.len() == 1 || low.len() == 2 || low.len() == 4 || low.len() == 8,
    ensures
        low.len() == 1 ==> big_endian(low) == low[0],
        low.len() == 2 ==> big_endian(low) == low[0] * 0x100 + low[1],
        low.len() == 4 ==> big_endian(low) == low[0] * 0x100_0000 + low[1] * 0x1_0000 + low[2]
            * 0x100 + low[3],
        low.len() == 8 ==> big_endian(low) == low[0] * 0x100_0000_0000_0000 + low[1]
            * 0x1_0000_0000_0000 + low[2] * 0x100_0000_0000 + low[3] * 0x1_0000_0000 + low[4]
            * 0x100_0000 + low[5] * 0x1_0000 + low[6] * 0x100 + low[7],
    decreases low.len(),
{
    let a = low.drop_last();
    if low.len() == 1 {
        assert(big_endian(a) == 0);
    } else if low.len() == 2 {
        lemma_big_endian_of(a);
    } else if low.len() == 4 {
        let b = a.drop_last();
        lemma_big_endian_of(b);
        assert(big_endian(a) == big_endian(b) * 256 + a.last());
    } else {
        let b = a.drop_last();
        let c = b.drop_last();
        let d = c.drop_last();
        lemma_big_endian_of(d);
        assert(big_endian(c) == big_endian(d) * 256 + c.last());
        assert(big_endian(b) == big_endian(c) * 256 + b.last());
        assert(big_endian(a) == big_endian(b) * 256 + a.last());
    }
}

/// An integer that is not all there is not read, and one that is cut short nowhere
/// is.
pub proof fn only_what_is_cut_short_is_not_read(bytes: Seq<u8>)
    ensures
        varint_prefix(bytes) is None <==> cut_short(bytes),
{
}

/// What this server writes spells the value, in the fewest bytes that can.
pub proof fn written_integers_are_spelled(value: u64)
    requires
        value <= VARINT_MAX,
    ensures
        spells(varint_bytes(value), value as nat),
        varint_bytes(value).len() == 1 <==> value < 0x40,
        varint_bytes(value).len() <= 2 <==> value < 0x4000,
        varint_bytes(value).len() <= 4 <==> value < 0x4000_0000,
{
    let bytes = varint_bytes(value);
    varint_round_trip(value, Seq::empty());
    assert(bytes + Seq::<u8>::empty() =~= bytes);
    let width = varint_width(bytes[0]);
    assert(width == varint_size(value));
    assert(bytes.len() == width);
    let low = bytes.subrange(0, width as int).update(0, (bytes[0] % 64) as u8);
    assert(low =~= bytes.update(0, (bytes[0] % 64) as u8));
    lemma_big_endian_of(low);
    lemma_big_endian_of(bytes);
}

/// A datagram is the stream it belongs to, what it carries, and all the bytes
/// behind them, in whatever lengths the two integers come. One for a stream that
/// cannot exist is a fault of the connection.
pub proof fn datagrams_are_read(
    id_bytes: Seq<u8>,
    id: nat,
    context_bytes: Seq<u8>,
    context: nat,
    payload: Seq<u8>,
)
    requires
        spells(id_bytes, id),
        spells(context_bytes, context),
    ensures
        4 * id <= VARINT_MAX ==> datagram_of(id_bytes + context_bytes + payload) == Ok::<
            DatagramView,
            DecodeError,
        >(
            DatagramView {
                quarter_stream_id: id as u64,
                context_id: context as u64,
                payload,
            },
        ),
        4 * id > VARINT_MAX ==> (datagram_of(id_bytes + context_bytes + payload) matches Err(error)
            && error.fatal()),
{
    let all = id_bytes + context_bytes + payload;
    assert(all =~= id_bytes + (context_bytes + payload));
    integers_are_read(id_bytes, id, context_bytes + payload);
    integers_are_read(context_bytes, context, payload);
    assert(all.subrange(id_bytes.len() as int, all.len() as int) =~= context_bytes + payload);
    assert(all.subrange((id_bytes.len() + context_bytes.len()) as int, all.len() as int)
        =~= payload);
}

/// A datagram that ends before it says which stream it belongs to is a fault of the
/// connection, and one that ends before it says what it carries is not.
pub proof fn datagrams_cut_short_are_refused(id_bytes: Seq<u8>, id: nat, rest: Seq<u8>)
    requires
        cut_short(rest),
    ensures
        datagram_of(rest) matches Err(error) && error.fatal(),
        spells(id_bytes, id) && 4 * id <= VARINT_MAX ==> (datagram_of(id_bytes + rest) matches Err(
            error,
        ) && !error.fatal()),
{
    if spells(id_bytes, id) {
        let all = id_bytes + rest;
        integers_are_read(id_bytes, id, rest);
        assert(all.subrange(id_bytes.len() as int, all.len() as int) =~= rest);
    }
}

} // verus!
