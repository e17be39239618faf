//! The byte buffers of the `bytes` crate, seen as sequences of bytes.
//!
//! A [`Bytes`] is a cheap slice of a received chunk and a [`BytesMut`] is a
//! buffer being written. Both are opaque here: what a buffer holds is
//! [`held`] or [`written`], and the items below say what each method of the
//! crate does to it.

use bytes::{Buf, Bytes, BytesMut};
use vstd::prelude::*;

verus! {

/// The `Bytes` type of the `bytes` crate.
#[verifier::external_type_specification]
#[verifier::external_body]
pub struct ExBytes(bytes::Bytes);

/// The `BytesMut` type of the `bytes` crate.
#[verifier::external_type_specification]
#[verifier::external_body]
pub struct ExBytesMut(bytes::BytesMut);

/// The bytes that a `Bytes` holds, in order.
pub uninterp spec fn held(buffer: bytes::Bytes) -> Seq<u8>;

/// The bytes that a `BytesMut` holds, in order.
pub uninterp spec fn written(buffer: bytes::BytesMut) -> Seq<u8>;

/// Whether `extra` more bytes can be appended to `out` without the buffer
/// outgrowing what one allocation may hold.
pub open spec fn has_room(out: bytes::BytesMut, extra: nat) -> bool {
    written(out).len() + extra <= isize::MAX
}

/// An empty buffer, by `Bytes::new`.
#[verifier::external_body]
pub(crate) fn bytes_new() -> (buffer: Bytes)
    ensures
        held(buffer) == Seq::<u8>::empty(),
{
    Bytes::new()
}

/// Takes the first `at` bytes out of a buffer, by `Bytes::split_to`, which leaves
/// the rest there and panics where there are fewer than `at`.
#[verifier::external_body]
pub(crate) fn bytes_split_to(buffer: &mut Bytes, at: usize) -> (head: Bytes)
    requires
        at <= held(*old(buffer)).len(),
    ensures
        held(head) == held(*old(buffer)).subrange(0, at as int),
        held(*final(buffer)) == held(*old(buffer)).subrange(
            at as int,
            held(*old(buffer)).len() as int,
        ),
{
    buffer.split_to(at)
}

/// An empty buffer, by `BytesMut::new`.
#[verifier::external_body]
pub(crate) fn bytes_mut_new() -> (buffer: BytesMut)
    ensures
        written(buffer) == Seq::<u8>::empty(),
{
    BytesMut::new()
}

/// Appends the bytes of a slice, by `BytesMut::extend_from_slice`, which panics
/// where the buffer would outgrow the largest possible allocation.
#[verifier::external_body]
pub(crate) fn bytes_mut_extend(buffer: &mut BytesMut, extend: &[u8])
    requires
        has_room(*old(buffer), extend@.len()),
    ensures
        written(*final(buffer)) == written(*old(buffer)) + extend@,
{
    buffer.extend_from_slice(extend);
}

/// Takes everything out of a buffer, by `BytesMut::split`, which leaves it empty.
#[verifier::external_body]
pub(crate) fn bytes_mut_split(buffer: &mut BytesMut) -> (whole: BytesMut)
    ensures
        written(whole) == written(*old(buffer)),
        written(*final(buffer)) == Seq::<u8>::empty(),
{
    buffer.split()
}

/// The same bytes as a `Bytes`, by `BytesMut::freeze`.
#[verifier::external_body]
pub(crate) fn bytes_mut_freeze(buffer: BytesMut) -> (frozen: Bytes)
    ensures
        held(frozen) == written(buffer),
{
    buffer.freeze()
}

/// The bytes of a `Bytes` as a slice, by its `AsRef<[u8]>`.
#[verifier::external_body]
pub(crate) fn bytes_slice(buffer: &Bytes) -> (slice: &[u8])
    ensures
        slice@ == held(*buffer),
{
    buffer.as_ref()
}

/// The bytes of a `BytesMut` as a slice, by its `AsRef<[u8]>`.
#[verifier::external_body]
pub(crate) fn bytes_mut_slice(buffer: &BytesMut) -> (slice: &[u8])
    ensures
        slice@ == written(*buffer),
{
    buffer.as_ref()
}

/// Drops the first `count` bytes, by `Buf::advance`, which panics where there
/// are fewer than `count`.
#[verifier::external_body]
pub(crate) fn bytes_advance(buffer: &mut Bytes, count: usize)
    requires
        count <= held(*old(buffer)).len(),
    ensures
        held(*final(buffer)) == held(*old(buffer)).subrange(
            count as int,
            held(*old(buffer)).len() as int,
        ),
{
    buffer.advance(count);
}

/// Appends one byte.
pub(crate) fn put_byte(out: &mut BytesMut, byte: u8)
    requires
        has_room(*old(out), 1),
    ensures
        written(*final(out)) == written(*old(out)).push(byte),
{
    let one: [u8; 1] = [byte];
    bytes_mut_extend(out, one.as_slice());
    assert(written(*out) =~= written(*old(out)).push(byte));
}

} // verus!
