//! QPACK field sections (RFC 9204), with the static table alone.
//!
//! This server advertises a dynamic table of no capacity, so no section it is
//! sent may refer to one: the decoder needs no state between sections, and a
//! reference to the dynamic table is a violation. What it writes itself refers
//! to the static table or spells a field out, and is never Huffman-coded.

use bytes::BytesMut;
use vstd::arithmetic::power2::{lemma2_to64, lemma_pow2_adds, pow2};
use vstd::prelude::*;
use vstd::string::StringExecFns;
use vstd::utf8::encode_utf8;

use crate::buf::{bytes_mut_extend, has_room, put_byte, written};
use crate::h3::error::{Code, Fault, Violation};
use crate::h3::huffman;
use crate::h3::message::{FieldBytes, same_bytes};
use crate::text::{decimal, decimal_text};

verus! {

/// What each field counts for beyond its name and value (RFC 9114 section
/// 4.2.2).
pub const FIELD_OVERHEAD: u64 = 32;

/// The static table (RFC 9204 appendix A): names and values.
pub const STATIC_TABLE: [(&'static str, &'static str); 99] = [
    (":authority", ""),
    (":path", "/"),
    ("age", "0"),
    ("content-disposition", ""),
    ("content-length", "0"),
    ("cookie", ""),
    ("date", ""),
    ("etag", ""),
    ("if-modified-since", ""),
    ("if-none-match", ""),
    ("last-modified", ""),
    ("link", ""),
    ("location", ""),
    ("referer", ""),
    ("set-cookie", ""),
    (":method", "CONNECT"),
    (":method", "DELETE"),
    (":method", "GET"),
    (":method", "HEAD"),
    (":method", "OPTIONS"),
    (":method", "POST"),
    (":method", "PUT"),
    (":scheme", "http"),
    (":scheme", "https"),
    (":status", "103"),
    (":status", "200"),
    (":status", "304"),
    (":status", "404"),
    (":status", "503"),
    ("accept", "*/*"),
    ("accept", "application/dns-message"),
    ("accept-encoding", "gzip, deflate, br"),
    ("accept-ranges", "bytes"),
    ("access-control-allow-headers", "cache-control"),
    ("access-control-allow-headers", "content-type"),
    ("access-control-allow-origin", "*"),
    ("cache-control", "max-age=0"),
    ("cache-control", "max-age=2592000"),
    ("cache-control", "max-age=604800"),
    ("cache-control", "no-cache"),
    ("cache-control", "no-store"),
    ("cache-control", "public, max-age=31536000"),
    ("content-encoding", "br"),
    ("content-encoding", "gzip"),
    ("content-type", "application/dns-message"),
    ("content-type", "application/javascript"),
    ("content-type", "application/json"),
    ("content-type", "application/x-www-form-urlencoded"),
    ("content-type", "image/gif"),
    ("content-type", "image/jpeg"),
    ("content-type", "image/png"),
    ("content-type", "text/css"),
    ("content-type", "text/html; charset=utf-8"),
    ("content-type", "text/plain"),
    ("content-type", "text/plain;charset=utf-8"),
    ("range", "bytes=0-"),
    ("strict-transport-security", "max-age=31536000"),
    ("strict-transport-security", "max-age=31536000; includesubdomains"),
    ("strict-transport-security", "max-age=31536000; includesubdomains; preload"),
    ("vary", "accept-encoding"),
    ("vary", "origin"),
    ("x-content-type-options", "nosniff"),
    ("x-xss-protection", "1; mode=block"),
    (":status", "100"),
    (":status", "204"),
    (":status", "206"),
    (":status", "302"),
    (":status", "400"),
    (":status", "403"),
    (":status", "421"),
    (":status", "425"),
    (":status", "500"),
    ("accept-language", ""),
    ("access-control-allow-credentials", "FALSE"),
    ("access-control-allow-credentials", "TRUE"),
    ("access-control-allow-headers", "*"),
    ("access-control-allow-methods", "get"),
    ("access-control-allow-methods", "get, post, options"),
    ("access-control-allow-methods", "options"),
    ("access-control-expose-headers", "content-length"),
    ("access-control-request-headers", "content-type"),
    ("access-control-request-method", "get"),
    ("access-control-request-method", "post"),
    ("alt-svc", "clear"),
    ("authorization", ""),
    ("content-security-policy", "script-src 'none'; object-src 'none'; base-uri 'none'"),
    ("early-data", "1"),
    ("expect-ct", ""),
    ("forwarded", ""),
    ("if-range", ""),
    ("origin", ""),
    ("purpose", "prefetch"),
    ("server", ""),
    ("timing-allow-origin", "*"),
    ("upgrade-insecure-requests", "1"),
    ("user-agent", ""),
    ("x-forwarded-for", ""),
    ("x-frame-options", "deny"),
    ("x-frame-options", "sameorigin"),
];

/// How many entries the static table has.
pub const STATIC_ENTRIES: usize = 99;

/// The name and value of a static table entry, in bytes.
pub open spec fn entry(index: int) -> FieldBytes {
    (encode_utf8(STATIC_TABLE@[index].0@), encode_utf8(STATIC_TABLE@[index].1@))
}

/// A failure that is answered by closing the connection.
pub open spec fn connection_fault(detail: Seq<char>) -> Fault {
    Fault::connection(Code::QPACK_DECOMPRESSION_FAILED, detail)
}

/// A failure that is answered on the one stream it arrived on.
pub open spec fn stream_fault(detail: Seq<char>) -> Fault {
    Fault::stream(Code::QPACK_DECOMPRESSION_FAILED, detail)
}

/// The section ended in the middle of a field line.
pub open spec fn truncated_fault() -> Fault {
    stream_fault("the field section ended mid-representation"@)
}

/// A reference to the dynamic table.
pub open spec fn dynamic_fault() -> Fault {
    connection_fault("a dynamic table reference with a zero table capacity"@)
}

/// The rest of a prefixed integer whose prefix was full: seven bits a byte, the
/// least significant first, the highest bit of each byte telling whether another
/// follows. `value` is what has been read, `shift` how far the next bits count.
///
/// The result is the integer and how many bytes it took.
pub open spec fn int_tail(bytes: Seq<u8>, value: nat, shift: nat) -> Result<(u64, nat), Fault>
    decreases bytes.len(),
{
    if bytes.len() == 0 {
        Err(truncated_fault())
    } else {
        let grown = value + (bytes[0] % 128) as nat * pow2(shift);
        if shift >= 64 || grown > u64::MAX {
            Err(stream_fault("prefixed integer overflows"@))
        } else if bytes[0] < 128 {
            Ok((grown as u64, 1))
        } else {
            match int_tail(bytes.drop_first(), grown, shift + 7) {
                Ok((all, used)) => Ok((all, used + 1)),
                Err(fault) => Err(fault),
            }
        }
    }
}

/// A prefixed integer (RFC 7541 section 5.1): the bits above its prefix, its
/// value, and how many bytes it takes.
pub open spec fn int_at(bytes: Seq<u8>, prefix_bits: nat) -> Result<(u8, u64, nat), Fault> {
    if bytes.len() == 0 {
        Err(truncated_fault())
    } else {
        let size = pow2(prefix_bits);
        let flags = (bytes[0] as nat / size) as u8;
        let low = bytes[0] as nat % size;
        if low + 1 < size {
            Ok((flags, low as u64, 1))
        } else {
            match int_tail(bytes.drop_first(), low, 0) {
                Ok((value, used)) => Ok((flags, value, used + 1)),
                Err(fault) => Err(fault),
            }
        }
    }
}

/// A string literal: its text, and how many bytes it takes.
pub open spec fn string_at(bytes: Seq<u8>, prefix_bits: nat) -> Result<(Seq<u8>, nat), Fault> {
    match int_at(bytes, prefix_bits) {
        Err(fault) => Err(fault),
        Ok((flags, length, used)) => if used + length > bytes.len() {
            Err(truncated_fault())
        } else {
            let literal = bytes.subrange(used as int, used + length);
            if flags % 2 == 0 {
                Ok((literal, used + length as nat))
            } else {
                match huffman::decoded(literal) {
                    Ok(text) => Ok((text, used + length as nat)),
                    Err(fault) => Err(fault),
                }
            }
        },
    }
}

/// A static table entry by its index.
pub open spec fn entry_at(index: u64) -> Result<FieldBytes, Fault> {
    if index < STATIC_ENTRIES {
        Ok(entry(index as int))
    } else {
        Err(connection_fault("static table index out of range"@))
    }
}

/// `bytes` without the first `used`.
pub open spec fn after(bytes: Seq<u8>, used: nat) -> Seq<u8> {
    bytes.subrange(used as int, bytes.len() as int)
}

/// A field line that is an index into the static table.
pub open spec fn indexed_line_at(bytes: Seq<u8>) -> Result<(FieldBytes, nat), Fault> {
    match int_at(bytes, 6) {
        Err(fault) => Err(fault),
        Ok((flags, index, used)) => if bytes[0] < 0xc0 {
            Err(dynamic_fault())
        } else {
            match entry_at(index) {
                Err(fault) => Err(fault),
                Ok(field) => Ok((field, used)),
            }
        },
    }
}

/// A field line with a name from the static table and a value of its own.
pub open spec fn named_line_at(bytes: Seq<u8>) -> Result<(FieldBytes, nat), Fault> {
    match int_at(bytes, 4) {
        Err(fault) => Err(fault),
        Ok((flags, index, used)) => if bytes[0] / 16 % 2 == 0 {
            Err(dynamic_fault())
        } else {
            match entry_at(index) {
                Err(fault) => Err(fault),
                Ok(field) => match string_at(after(bytes, used), 7) {
                    Err(fault) => Err(fault),
                    Ok((value, more)) => Ok(((field.0, value), used + more)),
                },
            }
        },
    }
}

/// A field line with a name and a value of its own.
pub open spec fn literal_line_at(bytes: Seq<u8>) -> Result<(FieldBytes, nat), Fault> {
    match string_at(bytes, 3) {
        Err(fault) => Err(fault),
        Ok((name, used)) => match string_at(after(bytes, used), 7) {
            Err(fault) => Err(fault),
            Ok((value, more)) => Ok(((name, value), used + more)),
        },
    }
}

/// A field line: its name and value, and how many bytes it takes.
pub open spec fn line_at(bytes: Seq<u8>) -> Result<(FieldBytes, nat), Fault> {
    if bytes[0] >= 0x80 {
        indexed_line_at(bytes)
    } else if bytes[0] >= 0x40 {
        named_line_at(bytes)
    } else if bytes[0] >= 0x20 {
        literal_line_at(bytes)
    } else {
        Err(dynamic_fault())
    }
}

/// What a field counts for in the size of its section.
pub open spec fn field_size(field: FieldBytes) -> nat {
    field.0.len() + field.1.len() + FIELD_OVERHEAD as nat
}

/// The field lines of a section, behind `done` fields of `size` bytes together.
pub open spec fn lines_from(
    bytes: Seq<u8>,
    size: nat,
    limit: u64,
    done: Seq<FieldBytes>,
) -> Result<Seq<FieldBytes>, Fault>
    decreases bytes.len(),
{
    if bytes.len() == 0 {
        Ok(done)
    } else {
        match line_at(bytes) {
            Err(fault) => Err(fault),
            Ok((field, used)) => if size + field_size(field) > limit {
                Err(
                    Fault::field_section_too_large(
                        "field section exceeds the advertised "@ + decimal_text(limit as nat)
                            + " bytes"@,
                    ),
                )
            } else if 0 < used <= bytes.len() {
                lines_from(after(bytes, used), size + field_size(field), limit, done.push(field))
            } else {
                Ok(done)
            },
        }
    }
}

/// How many bytes the prefix of a section takes: a Required Insert Count and a
/// Base, both of which a section without dynamic references leaves at zero.
pub open spec fn section_prefix(block: Seq<u8>) -> Result<nat, Fault> {
    match int_at(block, 8) {
        Err(fault) => Err(fault),
        Ok((_, count, used)) => if count != 0 {
            Err(connection_fault("a non-zero Required Insert Count with no dynamic table"@))
        } else {
            match int_at(after(block, used), 7) {
                Err(fault) => Err(fault),
                Ok((flags, base, more)) => if flags % 2 == 1 {
                    Err(connection_fault("a Sign bit of 1 with a zero Required Insert Count"@))
                } else {
                    Ok(used + more)
                },
            }
        },
    }
}

/// The fields of an encoded section, or the first thing wrong with it.
pub open spec fn section_fields(block: Seq<u8>, limit: u64) -> Result<Seq<FieldBytes>, Fault> {
    match section_prefix(block) {
        Err(fault) => Err(fault),
        Ok(used) => lines_from(after(block, used), 0, limit, Seq::empty()),
    }
}

/// One decoded field line. A pseudo-header is neither a field name nor a field
/// value, so both halves are bytes.
#[derive(Debug, Clone, PartialEq, Eq)]
pub struct Field {
    /// The field name.
    pub name: Vec<u8>,
    /// The field value.
    pub value: Vec<u8>,
}

impl View for Field {
    type V = FieldBytes;

    open spec fn view(&self) -> FieldBytes {
        (self.name@, self.value@)
    }
}

/// The fields of a decoded section, in bytes.
pub open spec fn fields_bytes(fields: Seq<Field>) -> Seq<FieldBytes> {
    Seq::new(fields.len(), |i: int| fields[i]@)
}

impl Field {
    /// What the field counts for in the size of its section.
    pub fn size(&self) -> (size: u128)
        ensures
            size == field_size(self@),
            size <= 0x2_0000_0000_0000_0020,
    {
        self.name.len() as u128 + self.value.len() as u128 + FIELD_OVERHEAD as u128
    }
}

/// The number of values a prefix of `prefix_bits` bits can hold.
fn prefix_size(prefix_bits: u32) -> (size: u16)
    requires
        1 <= prefix_bits <= 8,
    ensures
        size == pow2(prefix_bits as nat),
        2 <= size <= 256,
{
    proof {
        lemma2_to64();
    }
    match prefix_bits {
        1 => 2,
        2 => 4,
        3 => 8,
        4 => 16,
        5 => 32,
        6 => 64,
        7 => 128,
        _ => 256,
    }
}

/// A failure that is answered by closing the connection.
fn connection_error(detail: &str) -> (violation: Violation)
    ensures
        violation@ == connection_fault(detail@),
{
    Violation::connection(Code::QPACK_DECOMPRESSION_FAILED, detail)
}

/// A failure that is answered on the one stream it arrived on: with no dynamic
/// table, a section that could not be read leaves nothing out of step.
fn stream_error(detail: &str) -> (violation: Violation)
    ensures
        violation@ == stream_fault(detail@),
{
    Violation::stream(Code::QPACK_DECOMPRESSION_FAILED, detail)
}

fn truncated() -> (violation: Violation)
    ensures
        violation@ == truncated_fault(),
{
    stream_error("the field section ended mid-representation")
}

fn dynamic_reference() -> (violation: Violation)
    ensures
        violation@ == dynamic_fault(),
{
    connection_error("a dynamic table reference with a zero table capacity")
}

/// Looks up a static table entry, refusing an index past its end.
fn static_entry(index: u64) -> (result: Result<(&'static [u8], &'static [u8]), Violation>)
    ensures
        match (result, entry_at(index)) {
            (Ok((name, value)), Ok(field)) => name@ == field.0 && value@ == field.1,
            (Err(violation), Err(fault)) => violation@ == fault,
            _ => false,
        },
{
    if index >= STATIC_ENTRIES as u64 {
        return Err(connection_error("static table index out of range"));
    }
    let found = STATIC_TABLE[index as usize];
    Ok((found.0.as_bytes(), found.1.as_bytes()))
}

/// A cursor over an encoded field section.
pub struct Reader<'a> {
    buf: &'a [u8],
}

impl<'a> Reader<'a> {
    /// What has not been read yet.
    pub closed spec fn left(self) -> Seq<u8> {
        self.buf@
    }

    /// A cursor at the start of `buf`.
    pub fn new(buf: &'a [u8]) -> (reader: Reader<'a>)
        ensures
            reader.left() == buf@,
    {
        Reader { buf }
    }

    /// The next byte without consuming it, or `None` at the end of the section.
    pub fn peek(&self) -> (byte: Option<u8>)
        ensures
            byte == if self.left().len() == 0 {
                None
            } else {
                Some(self.left()[0])
            },
    {
        if self.buf.len() == 0 {
            None
        } else {
            Some(self.buf[0])
        }
    }

    /// Reads a prefixed integer with a `prefix_bits`-wide prefix: the bits above
    /// the prefix, and the value.
    pub fn take_int(&mut self, prefix_bits: u32) -> (result: Result<(u8, u64), Violation>)
        requires
            1 <= prefix_bits <= 8,
        ensures
            match (result, int_at(old(self).left(), prefix_bits as nat)) {
                (Ok((flags, value)), Ok((above, number, used))) => flags == above && value == number
                    && 0 < used <= old(self).left().len() && final(self).left() == after(
                    old(self).left(),
                    used,
                ),
                (Err(violation), Err(fault)) => violation@ == fault,
                _ => false,
            },
    {
        let ghost all = self.left();
        if self.buf.len() == 0 {
            return Err(truncated());
        }
        let size: u16 = prefix_size(prefix_bits);
        let first: u8 = self.buf[0];
        self.buf = vstd::slice::slice_subrange(self.buf, 1, self.buf.len());
        proof {
            assert(self.left() =~= all.drop_first());
            assert(after(all, 1) =~= all.drop_first());
        }
        let flags: u8 = (first as u16 / size) as u8;
        let low: u64 = (first as u16 % size) as u64;
        if low + 1 < size as u64 {
            return Ok((flags, low));
        }
        let mut value: u64 = low;
        let mut shift: u32 = 0;
        let mut scale: u64 = 1;
        let ghost tail = self.left();
        let ghost mut read: nat = 0;
        proof {
            lemma2_to64();
            assert(after(tail, 0) =~= tail);
        }
        loop
            invariant
                all == old(self).left(),
                shift < 64 ==> scale == pow2(shift as nat),
                shift <= 70,
                all.len() > 0,
                tail == all.drop_first(),
                read <= tail.len(),
                self.left() == after(tail, read),
                int_at(all, prefix_bits as nat) == match int_tail(
                    self.left(),
                    value as nat,
                    shift as nat,
                ) {
                    Ok((number, used)) => Ok((flags, number, used + read + 1)),
                    Err(fault) => Err(fault),
                },
            decreases self.left().len(),
        {
            let ghost left = self.left();
            if self.buf.len() == 0 {
                return Err(truncated());
            }
            let byte: u8 = self.buf[0];
            self.buf = vstd::slice::slice_subrange(self.buf, 1, self.buf.len());
            assert(self.left() =~= left.drop_first());
            assert(self.left() =~= after(tail, read + 1));
            if shift >= 64 {
                return Err(stream_error("prefixed integer overflows"));
            }
            let low_bits: u8 = byte % 128;
            proof {
                assert((low_bits as int) * (scale as int) <= 127 * 0xffff_ffff_ffff_ffff)
                    by (nonlinear_arith)
                    requires
                        0 <= low_bits <= 127,
                        0 <= scale <= 0xffff_ffff_ffff_ffff,
                ;
            }
            let grown: u128 = value as u128 + low_bits as u128 * scale as u128;
            if grown > 0xffff_ffff_ffff_ffff {
                return Err(stream_error("prefixed integer overflows"));
            }
            value = grown as u64;
            if byte < 128 {
                assert(after(all, read + 2) =~= self.left());
                return Ok((flags, value));
            }
            proof {
                lemma_pow2_adds(shift as nat, 7);
                lemma2_to64();
                if shift + 7 < 64 {
                    vstd::arithmetic::power2::lemma_pow2_strictly_increases(
                        (shift + 7) as nat,
                        64,
                    );
                }
                read = read + 1;
            }
            shift = shift + 7;
            if shift < 64 {
                scale = scale * 128;
            }
        }
    }

    /// Reads a string literal: a length with an `H` bit above it, then bytes.
    pub fn take_string(&mut self, prefix_bits: u32) -> (result: Result<Vec<u8>, Violation>)
        requires
            1 <= prefix_bits <= 8,
        ensures
            match (result, string_at(old(self).left(), prefix_bits as nat)) {
                (Ok(text), Ok((expected, used))) => text@ == expected && 0 < used <= old(self).left().len() && final(self).left() == after(old(self).left(), used),
                (Err(violation), Err(fault)) => violation@ == fault,
                _ => false,
            },
    {
        let ghost all = self.left();
        let (flags, length): (u8, u64) = match self.take_int(prefix_bits) {
            Ok(read) => read,
            Err(violation) => {
                return Err(violation);
            },
        };
        if (self.buf.len() as u64) < length {
            return Err(truncated());
        }
        let ghost used = (int_at(all, prefix_bits as nat)->Ok_0).2;
        let literal = vstd::slice::slice_subrange(self.buf, 0, length as usize);
        self.buf = vstd::slice::slice_subrange(self.buf, length as usize, self.buf.len());
        proof {
            assert(literal@ =~= all.subrange(used as int, used + length));
            assert(self.left() =~= after(all, used + length as nat));
        }
        if flags % 2 == 0 {
            Ok(vstd::slice::slice_to_vec(literal))
        } else {
            huffman::decode(literal)
        }
    }

    /// Reads the prefix of a section.
    fn take_prefix(&mut self) -> (result: Result<(), Violation>)
        ensures
            match (result, section_prefix(old(self).left())) {
                (Ok(()), Ok(used)) => 0 < used <= old(self).left().len() && final(self).left()
                    == after(old(self).left(), used),
                (Err(violation), Err(fault)) => violation@ == fault,
                _ => false,
            },
    {
        let ghost block = self.left();
        let (_, required_insert_count): (u8, u64) = match self.take_int(8) {
            Ok(read) => read,
            Err(violation) => {
                return Err(violation);
            },
        };
        if required_insert_count != 0 {
            return Err(
                connection_error("a non-zero Required Insert Count with no dynamic table"),
            );
        }
        let ghost behind_count = self.left();
        let (flags, _): (u8, u64) = match self.take_int(7) {
            Ok(read) => read,
            Err(violation) => {
                return Err(violation);
            },
        };
        if flags % 2 == 1 {
            return Err(connection_error("a Sign bit of 1 with a zero Required Insert Count"));
        }
        proof {
            let used = (int_at(block, 8)->Ok_0).2;
            let more = (int_at(behind_count, 7)->Ok_0).2;
            assert(self.left() =~= after(block, used + more));
        }
        Ok(())
    }

    /// Reads a field line that is an index into the static table.
    fn take_indexed_field(&mut self) -> (result: Result<Field, Violation>)
        requires
            old(self).left().len() > 0,
        ensures
            match (result, indexed_line_at(old(self).left())) {
                (Ok(field), Ok((expected, used))) => field@ == expected && 0 < used
                    <= old(self).left().len() && final(self).left() == after(
                    old(self).left(),
                    used,
                ),
                (Err(violation), Err(fault)) => violation@ == fault,
                _ => false,
            },
    {
        let first: u8 = self.buf[0];
        let (_, index): (u8, u64) = match self.take_int(6) {
            Ok(read) => read,
            Err(violation) => {
                return Err(violation);
            },
        };
        if first < 0xc0 {
            return Err(dynamic_reference());
        }
        match static_entry(index) {
            Ok((name, value)) => Ok(
                Field {
                    name: vstd::slice::slice_to_vec(name),
                    value: vstd::slice::slice_to_vec(value),
                },
            ),
            Err(violation) => Err(violation),
        }
    }

    /// Reads a field line with a name from the static table.
    fn take_named_field(&mut self) -> (result: Result<Field, Violation>)
        requires
            old(self).left().len() > 0,
        ensures
            match (result, named_line_at(old(self).left())) {
                (Ok(field), Ok((expected, used))) => field@ == expected && 0 < used
                    <= old(self).left().len() && final(self).left() == after(
                    old(self).left(),
                    used,
                ),
                (Err(violation), Err(fault)) => violation@ == fault,
                _ => false,
            },
    {
        let ghost line = self.left();
        let first: u8 = self.buf[0];
        let (_, index): (u8, u64) = match self.take_int(4) {
            Ok(read) => read,
            Err(violation) => {
                return Err(violation);
            },
        };
        if first / 16 % 2 == 0 {
            return Err(dynamic_reference());
        }
        let name: Vec<u8> = match static_entry(index) {
            Ok((name, _)) => vstd::slice::slice_to_vec(name),
            Err(violation) => {
                return Err(violation);
            },
        };
        let ghost behind_name = self.left();
        let value: Vec<u8> = match self.take_string(7) {
            Ok(value) => value,
            Err(violation) => {
                return Err(violation);
            },
        };
        proof {
            let used = (int_at(line, 4)->Ok_0).2;
            let more = (string_at(behind_name, 7)->Ok_0).1;
            assert(self.left() =~= after(line, used + more));
        }
        Ok(Field { name, value })
    }

    /// Reads a field line that spells everything out.
    fn take_literal_field(&mut self) -> (result: Result<Field, Violation>)
        requires
            old(self).left().len() > 0,
        ensures
            match (result, literal_line_at(old(self).left())) {
                (Ok(field), Ok((expected, used))) => field@ == expected && 0 < used
                    <= old(self).left().len() && final(self).left() == after(
                    old(self).left(),
                    used,
                ),
                (Err(violation), Err(fault)) => violation@ == fault,
                _ => false,
            },
    {
        let ghost line = self.left();
        let name: Vec<u8> = match self.take_string(3) {
            Ok(name) => name,
            Err(violation) => {
                return Err(violation);
            },
        };
        let ghost behind_name = self.left();
        let value: Vec<u8> = match self.take_string(7) {
            Ok(value) => value,
            Err(violation) => {
                return Err(violation);
            },
        };
        proof {
            let used = (string_at(line, 3)->Ok_0).1;
            let more = (string_at(behind_name, 7)->Ok_0).1;
            assert(self.left() =~= after(line, used + more));
        }
        Ok(Field { name, value })
    }

    /// Reads one field line.
    fn take_field(&mut self) -> (result: Result<Field, Violation>)
        requires
            old(self).left().len() > 0,
        ensures
            match (result, line_at(old(self).left())) {
                (Ok(field), Ok((expected, used))) => field@ == expected && 0 < used
                    <= old(self).left().len() && final(self).left() == after(
                    old(self).left(),
                    used,
                ),
                (Err(violation), Err(fault)) => violation@ == fault,
                _ => false,
            },
    {
        let first: u8 = self.buf[0];
        if first >= 0x80 {
            self.take_indexed_field()
        } else if first >= 0x40 {
            self.take_named_field()
        } else if first >= 0x20 {
            self.take_literal_field()
        } else {
            Err(dynamic_reference())
        }
    }
}

/// Decodes an encoded field section.
///
/// `max_section_size` is the advertised limit; a peer that ignores it is cut off
/// there rather than allowed to make this server accumulate fields for it.
pub fn decode(block: &[u8], max_section_size: u64) -> (result: Result<Vec<Field>, Violation>)
    ensures
        match (result, section_fields(block@, max_section_size)) {
            (Ok(fields), Ok(expected)) => fields_bytes(fields@) == expected,
            (Err(violation), Err(fault)) => violation@ == fault,
            _ => false,
        },
{
    let mut reader = Reader::new(block);
    match reader.take_prefix() {
        Ok(()) => {},
        Err(violation) => {
            return Err(violation);
        },
    }
    let mut fields: Vec<Field> = Vec::new();
    let mut size: u128 = 0;
    assert(fields_bytes(fields@) =~= Seq::<FieldBytes>::empty());
    loop
        invariant
            size <= max_section_size,
            section_fields(block@, max_section_size) == lines_from(
                reader.left(),
                size as nat,
                max_section_size,
                fields_bytes(fields@),
            ),
        decreases reader.left().len(),
    {
        if reader.peek().is_none() {
            return Ok(fields);
        }
        let field: Field = match reader.take_field() {
            Ok(field) => field,
            Err(violation) => {
                return Err(violation);
            },
        };
        let ghost done = fields_bytes(fields@);
        size = size + field.size();
        if size > max_section_size as u128 {
            let mut detail = "field section exceeds the advertised ".to_owned();
            let limit = decimal(max_section_size);
            detail.append(limit.as_str());
            detail.append(" bytes");
            return Err(Violation::field_section_too_large(detail.as_str()));
        }
        fields.push(field);
        assert(fields_bytes(fields@) =~= done.push(field@));
    }
}

// ---------------------------------------------------------------------------
// Encoding
// ---------------------------------------------------------------------------

/// The bytes of an integer past its prefix: seven bits a byte, the least
/// significant first.
pub open spec fn int_tail_bytes(value: nat) -> Seq<u8>
    decreases value,
{
    if value < 128 {
        seq![value as u8]
    } else {
        seq![(value % 128 + 128) as u8] + int_tail_bytes(value / 128)
    }
}

/// A prefixed integer with `flags` in the bits above the prefix.
pub open spec fn int_bytes(prefix_bits: nat, flags: u8, value: u64) -> Seq<u8> {
    let size = pow2(prefix_bits);
    let above = flags as nat * size % 256;
    if value + 1 < size {
        seq![(above + value) as u8]
    } else {
        seq![(above + size - 1) as u8] + int_tail_bytes((value + 1 - size) as nat)
    }
}

/// A string literal, not Huffman-coded, with `flags` above its `H` bit.
pub open spec fn string_bytes(prefix_bits: nat, flags: u8, text: Seq<u8>) -> Seq<u8> {
    int_bytes(prefix_bits, (2 * (flags % 128)) as u8, text.len() as u64) + text
}

/// The first entry of the static table, from `from` on, with this name and value.
pub open spec fn first_entry(field: FieldBytes, from: nat) -> Option<nat>
    decreases STATIC_ENTRIES - from,
{
    if from >= STATIC_ENTRIES {
        None
    } else if entry(from as int) == field {
        Some(from)
    } else {
        first_entry(field, from + 1)
    }
}

/// The first entry of the static table, from `from` on, with this name.
pub open spec fn first_name(name: Seq<u8>, from: nat) -> Option<nat>
    decreases STATIC_ENTRIES - from,
{
    if from >= STATIC_ENTRIES {
        None
    } else if entry(from as int).0 == name {
        Some(from)
    } else {
        first_name(name, from + 1)
    }
}

/// A field line: an index where the static table has the whole field, a name
/// reference where it has the name, else both spelled out.
pub open spec fn line_bytes(field: FieldBytes) -> Seq<u8> {
    match first_entry(field, 0) {
        Some(index) => int_bytes(6, 0b11, index as u64),
        None => match first_name(field.0, 0) {
            Some(index) => int_bytes(4, 0b0101, index as u64) + string_bytes(7, 0, field.1),
            None => string_bytes(3, 0b0010, field.0) + string_bytes(7, 0, field.1),
        },
    }
}

/// The field lines of a section, one behind the other.
pub open spec fn lines_bytes(fields: Seq<FieldBytes>) -> Seq<u8>
    decreases fields.len(),
{
    if fields.len() == 0 {
        Seq::empty()
    } else {
        lines_bytes(fields.drop_last()) + line_bytes(fields.last())
    }
}

/// An encoded field section: the prefix, then one line per field.
pub open spec fn section_bytes(fields: Seq<FieldBytes>) -> Seq<u8> {
    seq![0u8, 0u8] + lines_bytes(fields)
}

/// The bytes of a list of borrowed fields.
pub open spec fn borrowed_bytes(fields: Seq<(&[u8], &[u8])>) -> Seq<FieldBytes> {
    Seq::new(fields.len(), |i: int| (fields[i].0@, fields[i].1@))
}

/// What the static table has to offer for one field.
enum Found {
    /// An entry with the name and the value.
    Entry(u64),
    /// An entry with the name.
    Name(u64),
    /// Nothing: the field has to be spelled out.
    Nothing,
}

/// Searches the static table, in one pass.
fn find(name: &[u8], value: &[u8]) -> (found: Found)
    ensures
        match found {
            Found::Entry(index) => first_entry((name@, value@), 0) == Some(index as nat) && index
                < STATIC_ENTRIES,
            Found::Name(index) => first_entry((name@, value@), 0) is None && first_name(name@, 0)
                == Some(index as nat) && index < STATIC_ENTRIES,
            Found::Nothing => first_entry((name@, value@), 0) is None && first_name(
                name@,
                0,
            ) is None,
        },
{
    let mut name_only: Option<u64> = None;
    let mut index: usize = 0;
    while index < STATIC_ENTRIES
        invariant
            index <= STATIC_ENTRIES,
            first_entry((name@, value@), 0) == first_entry((name@, value@), index as nat),
            match name_only {
                Some(at) => first_name(name@, 0) == Some(at as nat) && at < STATIC_ENTRIES,
                None => first_name(name@, 0) == first_name(name@, index as nat),
            },
        decreases STATIC_ENTRIES - index,
    {
        let (entry_name, entry_value) = STATIC_TABLE[index];
        if same_bytes(entry_name.as_bytes(), name) {
            if same_bytes(entry_value.as_bytes(), value) {
                return Found::Entry(index as u64);
            }
            if name_only.is_none() {
                name_only = Some(index as u64);
            }
        }
        index = index + 1;
    }
    match name_only {
        Some(at) => Found::Name(at),
        None => Found::Nothing,
    }
}

/// Writes a prefixed integer with `flags` in the bits above the prefix.
pub fn put_int(out: &mut BytesMut, prefix_bits: u32, flags: u8, value: u64)
    requires
        1 <= prefix_bits <= 8,
        has_room(*old(out), int_bytes(prefix_bits as nat, flags, value).len()),
    ensures
        written(*final(out)) == written(*old(out)) + int_bytes(prefix_bits as nat, flags, value),
{
    let ghost before = written(*out);
    let ghost whole = int_bytes(prefix_bits as nat, flags, value);
    let size: u16 = prefix_size(prefix_bits);
    proof {
        assert((flags as int) * (size as int) <= 255 * 256) by (nonlinear_arith)
            requires
                0 <= flags <= 255,
                0 <= size <= 256,
        ;
        lemma_above(flags as nat, prefix_bits as nat);
    }
    let above: u16 = (flags as u16 * size) % 256;
    if value < (size - 1) as u64 {
        put_byte(out, (above + value as u16) as u8);
        assert(written(*out) =~= before + whole);
        return;
    }
    proof {
        lemma_int_tail_bytes((value + 1 - size) as nat);
    }
    put_byte(out, (above + (size - 1)) as u8);
    let mut remaining: u64 = value - (size - 1) as u64;
    let ghost head = before.push((above + (size - 1)) as u8);
    assert(before + whole =~= head + int_tail_bytes(remaining as nat));
    while remaining >= 128
        invariant
            before + whole == written(*out) + int_tail_bytes(remaining as nat),
            before.len() + whole.len() <= isize::MAX,
        decreases remaining,
    {
        let ghost done = written(*out);
        proof {
            lemma_int_tail_bytes(remaining as nat);
            assert((before + whole).len() == done.len() + int_tail_bytes(remaining as nat).len());
        }
        put_byte(out, (remaining % 128 + 128) as u8);
        assert(done + int_tail_bytes(remaining as nat) =~= written(*out) + int_tail_bytes(
            (remaining / 128) as nat,
        ));
        remaining = remaining / 128;
    }
    proof {
        assert((before + whole).len() == written(*out).len() + int_tail_bytes(
            remaining as nat,
        ).len());
    }
    let ghost done = written(*out);
    put_byte(out, remaining as u8);
    assert(written(*out) =~= done + int_tail_bytes(remaining as nat));
}

proof fn lemma_int_tail_bytes(value: nat)
    ensures
        int_tail_bytes(value).len() >= 1,
    decreases value,
{
    if value >= 128 {
        lemma_int_tail_bytes(value / 128);
    }
}

/// Flags shifted past a prefix leave the prefix clear and stay within a byte.
pub(crate) proof fn lemma_above(flags: nat, prefix_bits: nat)
    requires
        1 <= prefix_bits <= 8,
    ensures
        flags * pow2(prefix_bits) % 256 + pow2(prefix_bits) <= 256,
        flags * pow2(prefix_bits) % 256 % pow2(prefix_bits) == 0,
        flags * pow2(prefix_bits) < 256 ==> flags * pow2(prefix_bits) % 256 / pow2(prefix_bits)
            == flags,
{
    lemma2_to64();
    if prefix_bits == 1 {
        assert(pow2(prefix_bits) == 2);
        assert(flags * 2 % 256 % 2 == 0 && flags * 2 % 256 + 2 <= 256);
        assert(flags * 2 < 256 ==> flags * 2 % 256 / 2 == flags);
    } else if prefix_bits == 2 {
        assert(pow2(prefix_bits) == 4);
        assert(flags * 4 % 256 % 4 == 0 && flags * 4 % 256 + 4 <= 256);
        assert(flags * 4 < 256 ==> flags * 4 % 256 / 4 == flags);
    } else if prefix_bits == 3 {
        assert(pow2(prefix_bits) == 8);
        assert(flags * 8 % 256 % 8 == 0 && flags * 8 % 256 + 8 <= 256);
        assert(flags * 8 < 256 ==> flags * 8 % 256 / 8 == flags);
    } else if prefix_bits == 4 {
        assert(pow2(prefix_bits) == 16);
        assert(flags * 16 % 256 % 16 == 0 && flags * 16 % 256 + 16 <= 256);
        assert(flags * 16 < 256 ==> flags * 16 % 256 / 16 == flags);
    } else if prefix_bits == 5 {
        assert(pow2(prefix_bits) == 32);
        assert(flags * 32 % 256 % 32 == 0 && flags * 32 % 256 + 32 <= 256);
        assert(flags * 32 < 256 ==> flags * 32 % 256 / 32 == flags);
    } else if prefix_bits == 6 {
        assert(pow2(prefix_bits) == 64);
        assert(flags * 64 % 256 % 64 == 0 && flags * 64 % 256 + 64 <= 256);
        assert(flags * 64 < 256 ==> flags * 64 % 256 / 64 == flags);
    } else if prefix_bits == 7 {
        assert(pow2(prefix_bits) == 128);
        assert(flags * 128 % 256 % 128 == 0 && flags * 128 % 256 + 128 <= 256);
        assert(flags * 128 < 256 ==> flags * 128 % 256 / 128 == flags);
    } else {
        assert(pow2(prefix_bits) == 256);
        assert(flags * 256 % 256 % 256 == 0 && flags * 256 % 256 + 256 <= 256);
        assert(flags * 256 < 256 ==> flags * 256 % 256 / 256 == flags);
    }
}

/// Writes a string literal, never Huffman-coded, with `flags` above its `H` bit.
pub fn put_string(out: &mut BytesMut, prefix_bits: u32, flags: u8, value: &[u8])
    requires
        1 <= prefix_bits <= 8,
        has_room(*old(out), string_bytes(prefix_bits as nat, flags, value@).len()),
    ensures
        written(*final(out)) == written(*old(out)) + string_bytes(
            prefix_bits as nat,
            flags,
            value@,
        ),
{
    put_int(out, prefix_bits, 2 * (flags % 128), value.len() as u64);
    bytes_mut_extend(out, value);
    assert(written(*out) =~= written(*old(out)) + string_bytes(prefix_bits as nat, flags, value@));
}

/// Writes one field line.
fn put_line(out: &mut BytesMut, name: &[u8], value: &[u8])
    requires
        has_room(*old(out), line_bytes((name@, value@)).len()),
    ensures
        written(*final(out)) == written(*old(out)) + line_bytes((name@, value@)),
{
    match find(name, value) {
        Found::Entry(index) => put_int(out, 6, 0b11, index),
        Found::Name(index) => {
            put_int(out, 4, 0b0101, index);
            put_string(out, 7, 0, value);
            assert(written(*out) =~= written(*old(out)) + line_bytes((name@, value@)));
        },
        Found::Nothing => {
            put_string(out, 3, 0b0010, name);
            put_string(out, 7, 0, value);
            assert(written(*out) =~= written(*old(out)) + line_bytes((name@, value@)));
        },
    }
}

/// Encodes a field section: the prefix, then one line per field.
pub fn encode(out: &mut BytesMut, fields: &[(&[u8], &[u8])])
    requires
        has_room(*old(out), section_bytes(borrowed_bytes(fields@)).len()),
    ensures
        written(*final(out)) == written(*old(out)) + section_bytes(borrowed_bytes(fields@)),
{
    let ghost before = written(*out);
    let ghost all = borrowed_bytes(fields@);
    proof {
        assert(all.subrange(0, all.len() as int) =~= all);
        assert(all.subrange(0, 0) =~= Seq::<FieldBytes>::empty());
    }
    put_byte(out, 0);
    put_byte(out, 0);
    let mut at: usize = 0;
    assert(written(*out) =~= before + section_bytes(all.subrange(0, 0)));
    while at < fields.len()
        invariant
            at <= fields.len(),
            all == borrowed_bytes(fields@),
            before.len() + section_bytes(all).len() <= isize::MAX,
            written(*out) == before + section_bytes(all.subrange(0, at as int)),
        decreases fields.len() - at,
    {
        let (name, value) = fields[at];
        proof {
            let shorter = all.subrange(0, at as int);
            let longer = all.subrange(0, at as int + 1);
            assert(longer.drop_last() =~= shorter);
            assert(longer.last() == (name@, value@));
            assert(before + section_bytes(longer) =~= before + section_bytes(shorter)
                + line_bytes((name@, value@)));
            lemma_lines_grow(all, at as int + 1);
        }
        put_line(out, name, value);
        at = at + 1;
    }
    assert(all.subrange(0, at as int) =~= all);
}

/// The lines of a longer list take no less room.
proof fn lemma_lines_grow(fields: Seq<FieldBytes>, count: int)
    requires
        0 <= count <= fields.len(),
    ensures
        lines_bytes(fields.subrange(0, count)).len() <= lines_bytes(fields).len(),
    decreases fields.len(),
{
    if count < fields.len() {
        assert(fields.drop_last().subrange(0, count) =~= fields.subrange(0, count));
        lemma_lines_grow(fields.drop_last(), count);
    } else {
        assert(fields.subrange(0, count) =~= fields);
    }
}

} // verus!
