//! Variable-length integers (RFC 9000 section 16) and HTTP Datagrams
//! (RFC 9297 section 2.1, RFC 9298 section 5).

use bytes::{Bytes, BytesMut};
use vstd::prelude::*;
use vstd::string::StringExecFns;

use crate::buf::{
    bytes_advance, bytes_mut_extend, bytes_mut_freeze, bytes_mut_new, bytes_slice, has_room, held,
    put_byte, written,
};
use crate::text::{decimal, decimal_text};

verus! {

/// The largest value a variable-length integer can carry: 2^62 - 1.
pub const VARINT_MAX: u64 = 0x3fff_ffff_ffff_ffff;

/// The most bytes a variable-length integer takes.
pub const VARINT_MAX_LEN: usize = 8;

/// How many bytes the integer that starts with the byte `first` takes: its two
/// highest bits are the base-two logarithm of that.
pub open spec fn varint_width(first: u8) -> nat {
    if first < 0x40 {
        1
    } else if first < 0x80 {
        2
    } else if first < 0xc0 {
        4
    } else {
        8
    }
}

/// A sequence of bytes read as one number, most significant byte first.
pub open spec fn big_endian(bytes: Seq<u8>) -> nat
    decreases bytes.len(),
{
    if bytes.len() == 0 {
        0
    } else {
        big_endian(bytes.drop_last()) * 256 + bytes.last() as nat
    }
}

/// `value` in `width` bytes, most significant byte first.
pub open spec fn big_endian_bytes(value: nat, width: nat) -> Seq<u8>
    decreases width,
{
    if width == 0 {
        Seq::empty()
    } else {
        big_endian_bytes(value / 256, (width - 1) as nat).push((value % 256) as u8)
    }
}

/// The integer that `bytes` starts with and how many bytes it takes, or `None`
/// where `bytes` ends before it does.
pub open spec fn varint_prefix(bytes: Seq<u8>) -> Option<(u64, nat)> {
    if bytes.len() == 0 || bytes.len() < varint_width(bytes[0]) {
        None
    } else {
        let width = varint_width(bytes[0]);
        let low = bytes.subrange(0, width as int).update(0, (bytes[0] % 64) as u8);
        Some((big_endian(low) as u64, width))
    }
}

/// The fewest bytes that carry `value`.
pub open spec fn varint_size(value: u64) -> nat {
    if value < 0x40 {
        1
    } else if value < 0x4000 {
        2
    } else if value < 0x4000_0000 {
        4
    } else {
        8
    }
}

/// `value` as a variable-length integer, in the fewest bytes.
pub open spec fn varint_bytes(value: u64) -> Seq<u8> {
    let width = varint_size(value);
    let tag: nat = if width == 1 {
        0
    } else if width == 2 {
        0x4000
    } else if width == 4 {
        0x8000_0000
    } else {
        0xc000_0000_0000_0000
    };
    big_endian_bytes(tag + value as nat, width)
}

/// How many bytes [`put_varint`] writes for `value`.
pub fn varint_len(value: u64) -> (len: usize)
    ensures
        len == varint_size(value),
        len == varint_bytes(value).len(),
{
    proof {
        reveal_with_fuel(big_endian_bytes, 9);
    }
    if value < 0x40 {
        1
    } else if value < 0x4000 {
        2
    } else if value < 0x4000_0000 {
        4
    } else {
        8
    }
}

/// Appends `value` in `width` bytes, most significant byte first.
fn put_big_endian(out: &mut BytesMut, value: u64, width: usize)
    requires
        has_room(*old(out), width as nat),
    ensures
        written(*final(out)) == written(*old(out)) + big_endian_bytes(value as nat, width as nat),
        big_endian_bytes(value as nat, width as nat).len() == width,
    decreases width,
{
    if width == 0 {
        assert(written(*out) =~= written(*old(out)) + big_endian_bytes(value as nat, 0));
        return;
    }
    put_big_endian(out, value / 256, width - 1);
    put_byte(out, (value % 256) as u8);
    assert(written(*out) =~= written(*old(out)) + big_endian_bytes(value as nat, width as nat));
}

/// Appends `value` as a variable-length integer, in the fewest bytes.
pub fn put_varint(out: &mut BytesMut, value: u64)
    requires
        value <= VARINT_MAX,
        has_room(*old(out), varint_size(value)),
    ensures
        written(*final(out)) == written(*old(out)) + varint_bytes(value),
        varint_bytes(value).len() == varint_size(value),
{
    if value < 0x40 {
        put_big_endian(out, value, 1);
    } else if value < 0x4000 {
        put_big_endian(out, 0x4000 + value, 2);
    } else if value < 0x4000_0000 {
        put_big_endian(out, 0x8000_0000 + value, 4);
    } else {
        put_big_endian(out, 0xc000_0000_0000_0000 + value, 8);
    }
}

/// Reads the integer that `bytes` starts with, and how many bytes it takes.
///
/// `None` where not all of it is there.
pub fn peek_varint(bytes: &[u8]) -> (result: Option<(u64, usize)>)
    ensures
        match result {
            Some((value, used)) => varint_prefix(bytes@) == Some((value, used as nat))
                && value <= VARINT_MAX && used <= bytes@.len() && 1 <= used <= 8,
            None => varint_prefix(bytes@) is None,
        },
{
    if bytes.len() == 0 {
        return None;
    }
    let first: u8 = bytes[0];
    let width: usize = if first < 0x40 {
        1
    } else if first < 0x80 {
        2
    } else if first < 0xc0 {
        4
    } else {
        8
    };
    if bytes.len() < width {
        return None;
    }
    let mut value: u64 = (first % 64) as u64;
    let ghost low = bytes@.subrange(0, width as int).update(0, (first % 64) as u8);
    let mut at: usize = 1;
    proof {
        assert(low.subrange(0, 1) =~= seq![(first % 64) as u8]);
        reveal_with_fuel(big_endian, 3);
    }
    while at < width
        invariant
            1 <= at <= width <= 8,
            width <= bytes.len(),
            width == varint_width(bytes@[0]),
            low == bytes@.subrange(0, width as int).update(0, (bytes@[0] % 64) as u8),
            value as nat == big_endian(low.subrange(0, at as int)),
            at == 1 ==> value <= 0x3f,
            at == 2 ==> value <= 0x3fff,
            at == 3 ==> value <= 0x3f_ffff,
            at == 4 ==> value <= 0x3fff_ffff,
            at == 5 ==> value <= 0x3f_ffff_ffff,
            at == 6 ==> value <= 0x3fff_ffff_ffff,
            at == 7 ==> value <= 0x3f_ffff_ffff_ffff,
            at == 8 ==> value <= 0x3fff_ffff_ffff_ffff,
        decreases width - at,
    {
        proof {
            let next = low.subrange(0, at as int + 1);
            assert(next.drop_last() =~= low.subrange(0, at as int));
            assert(next.last() == bytes@[at as int]);
        }
        value = value * 256 + bytes[at] as u64;
        at = at + 1;
    }
    assert(low.subrange(0, width as int) =~= low);
    Some((value, width))
}

proof fn lemma_big_endian_bytes(value: nat, width: nat)
    ensures
        big_endian_bytes(value, width).len() == width,
    decreases width,
{
    if width > 0 {
        lemma_big_endian_bytes(value / 256, (width - 1) as nat);
    }
}

/// The number of `width` bytes is below 256 to the power `width`.
pub open spec fn radix(width: nat) -> nat
    decreases width,
{
    if width == 0 {
        1
    } else {
        radix((width - 1) as nat) * 256
    }
}

proof fn lemma_big_endian_round_trip(value: nat, width: nat)
    requires
        value < radix(width),
    ensures
        big_endian(big_endian_bytes(value, width)) == value,
        big_endian_bytes(value, width).len() == width,
    decreases width,
{
    if width > 0 {
        let bytes = big_endian_bytes(value, width);
        lemma_big_endian_round_trip(value / 256, (width - 1) as nat);
        assert(bytes.drop_last() =~= big_endian_bytes(value / 256, (width - 1) as nat));
    }
}

/// Taking `tag` off the first byte takes `tag * radix(width - 1)` off the number.
proof fn lemma_big_endian_first(bytes: Seq<u8>, first: u8)
    requires
        bytes.len() > 0,
        first <= bytes[0],
    ensures
        big_endian(bytes) == big_endian(bytes.update(0, first)) + (bytes[0] - first) * radix(
            (bytes.len() - 1) as nat,
        ),
    decreases bytes.len(),
{
    let other = bytes.update(0, first);
    if bytes.len() == 1 {
        assert(bytes.drop_last() =~= Seq::<u8>::empty());
        assert(other.drop_last() =~= Seq::<u8>::empty());
        reveal_with_fuel(big_endian, 2);
        assert(radix(0) == 1);
        assert((bytes[0] - first) * 1 == bytes[0] - first);
    } else {
        lemma_big_endian_first(bytes.drop_last(), first);
        assert(other.drop_last() =~= bytes.drop_last().update(0, first));
        assert(other.last() == bytes.last());
        let gap = bytes[0] - first;
        let scale = radix((bytes.len() - 2) as nat);
        assert(bytes.drop_last()[0] == bytes[0]);
        assert(radix((bytes.len() - 1) as nat) == scale * 256);
        assert((gap * scale) * 256 == gap * (scale * 256)) by (nonlinear_arith);
        let head = big_endian(bytes.drop_last().update(0, first)) as int;
        assert((head + gap * scale) * 256 == head * 256 + (gap * scale) * 256) by (nonlinear_arith);
    }
}

/// The first byte of a big-endian number is its quotient by `radix(width - 1)`.
proof fn lemma_first_byte(value: nat, width: nat)
    requires
        width > 0,
        value < radix(width),
    ensures
        big_endian_bytes(value, width)[0] as nat == value / radix((width - 1) as nat),
    decreases width,
{
    lemma_big_endian_bytes(value, width);
    lemma_big_endian_bytes(value / 256, (width - 1) as nat);
    if width == 1 {
        assert(radix(0) == 1);
        assert(radix(1) == 256) by {
            reveal_with_fuel(radix, 2);
        }
        assert(big_endian_bytes(value / 256, 0) =~= Seq::<u8>::empty());
        assert(value / 1 == value);
    } else {
        lemma_first_byte(value / 256, (width - 1) as nat);
        let scale = radix((width - 2) as nat);
        assert(radix((width - 1) as nat) == scale * 256);
        lemma_radix_positive((width - 2) as nat);
        vstd::arithmetic::div_mod::lemma_div_denominator(value as int, 256, scale as int);
        assert(256 * scale == scale * 256);
    }
}

proof fn lemma_radix_positive(width: nat)
    ensures
        radix(width) > 0,
    decreases width,
{
    if width > 0 {
        lemma_radix_positive((width - 1) as nat);
    }
}

/// Reading back what was written gives the value and its length, whatever
/// follows it.
pub proof fn varint_round_trip(value: u64, rest: Seq<u8>)
    requires
        value <= VARINT_MAX,
    ensures
        varint_prefix(varint_bytes(value) + rest) == Some((value, varint_size(value))),
        varint_bytes(value).len() == varint_size(value),
{
    let width = varint_size(value);
    let tag: nat = if width == 1 {
        0
    } else if width == 2 {
        0x4000
    } else if width == 4 {
        0x8000_0000
    } else {
        0xc000_0000_0000_0000
    };
    let bytes = varint_bytes(value);
    reveal_with_fuel(radix, 9);
    assert(radix(0) == 1 && radix(1) == 0x100 && radix(2) == 0x1_0000 && radix(3) == 0x100_0000);
    assert(radix(4) == 0x1_0000_0000 && radix(7) == 0x100_0000_0000_0000);
    assert(radix(8) == 0x1_0000_0000_0000_0000);
    lemma_big_endian_round_trip(tag + value as nat, width);
    lemma_first_byte(tag + value as nat, width);
    let all = bytes + rest;
    assert(all[0] == bytes[0]);
    assert(varint_width(bytes[0]) == width);
    let first = (bytes[0] % 64) as u8;
    assert(all.subrange(0, width as int) =~= bytes);
    lemma_big_endian_first(bytes, first);
}

/// More bytes behind an integer do not change how it reads.
pub proof fn varint_ignores_what_follows(bytes: Seq<u8>, rest: Seq<u8>)
    requires
        varint_prefix(bytes) is Some,
    ensures
        varint_prefix(bytes + rest) == varint_prefix(bytes),
{
    let width = varint_width(bytes[0]);
    assert((bytes + rest)[0] == bytes[0]);
    assert((bytes + rest).subrange(0, width as int) =~= bytes.subrange(0, width as int));
}

// ---------------------------------------------------------------------------
// HTTP Datagrams
// ---------------------------------------------------------------------------

/// The largest Quarter Stream ID there is: a quarter of the largest stream ID.
pub const QUARTER_STREAM_ID_MAX: u64 = 0x0fff_ffff_ffff_ffff;

/// The Context ID of a UDP payload (RFC 9298 section 5).
pub const CONTEXT_ID_UDP_PAYLOAD: u64 = 0;

/// An HTTP Datagram.
#[derive(Debug)]
pub struct Datagram {
    /// The request stream it belongs to, by its ID divided by four.
    pub quarter_stream_id: u64,
    /// What the payload is.
    pub context_id: u64,
    /// The payload.
    pub payload: Bytes,
}

/// What a [`Datagram`] carries.
pub struct DatagramView {
    /// The request stream it belongs to, by its ID divided by four.
    pub quarter_stream_id: u64,
    /// What the payload is.
    pub context_id: u64,
    /// The payload.
    pub payload: Seq<u8>,
}

impl View for Datagram {
    type V = DatagramView;

    open spec fn view(&self) -> DatagramView {
        DatagramView {
            quarter_stream_id: self.quarter_stream_id,
            context_id: self.context_id,
            payload: held(self.payload),
        }
    }
}

/// Why a QUIC datagram is no HTTP Datagram.
#[derive(Debug, Clone, Copy, PartialEq, Eq, Structural)]
pub enum DecodeError {
    /// It is too short to hold a Quarter Stream ID.
    NoQuarterStreamId,
    /// Its Quarter Stream ID names a stream that cannot exist.
    QuarterStreamIdTooLarge(u64),
    /// It is too short to hold a Context ID.
    NoContextId,
}

impl DecodeError {
    /// Whether the whole connection is at fault (RFC 9297 section 2.1): a
    /// datagram that cannot be attributed to a stream is.
    pub open spec fn fatal(self) -> bool {
        !(self is NoContextId)
    }

    /// Whether the whole connection is at fault.
    pub fn is_connection_error(&self) -> (fatal: bool)
        ensures
            fatal == self.fatal(),
    {
        match self {
            DecodeError::NoContextId => false,
            _ => true,
        }
    }

    /// The error as text.
    pub open spec fn text(self) -> Seq<char> {
        match self {
            DecodeError::NoQuarterStreamId => "the Quarter Stream ID is missing"@,
            DecodeError::QuarterStreamIdTooLarge(id) => "the Quarter Stream ID "@ + decimal_text(
                id as nat,
            ) + " is too large"@,
            DecodeError::NoContextId => "the Context ID is missing"@,
        }
    }

    /// The error as text.
    pub fn to_string(&self) -> (text: String)
        ensures
            text@ == self.text(),
    {
        match self {
            DecodeError::NoQuarterStreamId => "the Quarter Stream ID is missing".to_owned(),
            DecodeError::QuarterStreamIdTooLarge(id) => {
                let mut text = "the Quarter Stream ID ".to_owned();
                let number = decimal(*id);
                text.append(number.as_str());
                text.append(" is too large");
                text
            },
            DecodeError::NoContextId => "the Context ID is missing".to_owned(),
        }
    }
}

/// The Quarter Stream ID of a request stream.
pub fn quarter_stream_id(stream_id: u64) -> (id: u64)
    ensures
        id == stream_id / 4,
{
    stream_id / 4
}

/// The HTTP Datagram that a QUIC datagram carries, or why it carries none.
pub open spec fn datagram_of(bytes: Seq<u8>) -> Result<DatagramView, DecodeError> {
    match varint_prefix(bytes) {
        None => Err(DecodeError::NoQuarterStreamId),
        Some((quarter_stream_id, used)) => if quarter_stream_id > QUARTER_STREAM_ID_MAX {
            Err(DecodeError::QuarterStreamIdTooLarge(quarter_stream_id))
        } else {
            match varint_prefix(bytes.subrange(used as int, bytes.len() as int)) {
                None => Err(DecodeError::NoContextId),
                Some((context_id, more)) => Ok(
                    DatagramView {
                        quarter_stream_id,
                        context_id,
                        payload: bytes.subrange((used + more) as int, bytes.len() as int),
                    },
                ),
            }
        },
    }
}

/// An HTTP Datagram on the wire.
pub open spec fn datagram_bytes(datagram: DatagramView) -> Seq<u8> {
    varint_bytes(datagram.quarter_stream_id) + varint_bytes(datagram.context_id)
        + datagram.payload
}

/// Reads an HTTP Datagram; the payload stays in the buffer it arrived in.
pub fn decode(datagram: Bytes) -> (result: Result<Datagram, DecodeError>)
    ensures
        match (result, datagram_of(held(datagram))) {
            (Ok(decoded), Ok(expected)) => decoded@ == expected,
            (Err(error), Err(expected)) => error == expected,
            _ => false,
        },
{
    let bytes = bytes_slice(&datagram);
    let (quarter_stream_id, used): (u64, usize) = match peek_varint(bytes) {
        Some(read) => read,
        None => {
            return Err(DecodeError::NoQuarterStreamId);
        },
    };
    if quarter_stream_id > QUARTER_STREAM_ID_MAX {
        return Err(DecodeError::QuarterStreamIdTooLarge(quarter_stream_id));
    }
    let rest = vstd::slice::slice_subrange(bytes, used, bytes.len());
    let (context_id, more): (u64, usize) = match peek_varint(rest) {
        Some(read) => read,
        None => {
            return Err(DecodeError::NoContextId);
        },
    };
    let mut payload = datagram;
    bytes_advance(&mut payload, used + more);
    Ok(Datagram { quarter_stream_id, context_id, payload })
}

/// Writes an HTTP Datagram.
pub fn encode(quarter_stream_id: u64, context_id: u64, payload: &[u8]) -> (datagram: Bytes)
    requires
        quarter_stream_id <= VARINT_MAX,
        context_id <= VARINT_MAX,
        payload@.len() + 16 <= isize::MAX,
    ensures
        held(datagram) == datagram_bytes(
            DatagramView { quarter_stream_id, context_id, payload: payload@ },
        ),
{
    let mut out = bytes_mut_new();
    put_varint(&mut out, quarter_stream_id);
    put_varint(&mut out, context_id);
    bytes_mut_extend(&mut out, payload);
    assert(written(out) =~= datagram_bytes(
        DatagramView { quarter_stream_id, context_id, payload: payload@ },
    ));
    bytes_mut_freeze(out)
}

/// A datagram reads back as it was written.
pub proof fn datagram_round_trip(datagram: DatagramView)
    requires
        datagram.quarter_stream_id <= QUARTER_STREAM_ID_MAX,
        datagram.context_id <= VARINT_MAX,
    ensures
        datagram_of(datagram_bytes(datagram)) == Ok::<DatagramView, DecodeError>(datagram),
{
    let id = varint_bytes(datagram.quarter_stream_id);
    let context = varint_bytes(datagram.context_id);
    let bytes = datagram_bytes(datagram);
    varint_round_trip(datagram.quarter_stream_id, context + datagram.payload);
    varint_round_trip(datagram.context_id, datagram.payload);
    assert(bytes =~= id + (context + datagram.payload));
    assert(bytes.subrange(id.len() as int, bytes.len() as int) =~= context + datagram.payload);
    assert(bytes.subrange((id.len() + context.len()) as int, bytes.len() as int)
        =~= datagram.payload);
}

} // verus!
