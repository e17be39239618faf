//! HTTP/3 (RFC 9114) with QPACK (RFC 9204): the layer between QUIC streams and
//! the requests that arrive on them.

pub mod connection;
pub mod connection_laws;
pub mod error;
pub mod frame;
pub mod frame_laws;
pub mod frame_wire;
pub mod huffman;
pub mod huffman_laws;
pub mod message;
pub mod qpack;
pub mod qpack_laws;
pub mod qpack_table;
pub mod qpack_wire;
pub mod request_laws;
pub mod stream;
pub mod stream_laws;

use vstd::prelude::*;

use crate::datagram::VARINT_MAX;
use crate::h3::error::Code;

verus! {

/// The most bytes a variable-length integer takes.
pub const MAX_VARINT: usize = 8;

/// The largest field section this server advertises that it will handle, by the
/// accounting of RFC 9114 section 4.2.2.
pub const MAX_FIELD_SECTION_SIZE: u64 = 65536;

/// What one connection may hold in unfinished frames, over all its request
/// streams.
pub const HEADERS_BUFFER_BUDGET: usize = 1048576;

/// Passes `value` through `quinn::VarInt::from_u64`, which takes exactly the
/// numbers below 2^62 and keeps them as they are.
#[verifier::external_body]
pub(crate) fn quic_varint(value: u64) -> (carried: Option<u64>)
    ensures
        carried == if value <= VARINT_MAX {
            Some(value)
        } else {
            None
        },
{
    match quinn::VarInt::from_u64(value) {
        Ok(varint) => Some(varint.into_inner()),
        Err(_) => None,
    }
}

/// The number a code is closed or reset with: a QUIC integer, so a code past
/// the largest of those becomes the largest.
pub fn varint(code: Code) -> (value: u64)
    ensures
        value == if code.number() <= VARINT_MAX {
            code.number()
        } else {
            VARINT_MAX
        },
{
    match quic_varint(code.value()) {
        Some(value) => value,
        None => VARINT_MAX,
    }
}

} // verus!
