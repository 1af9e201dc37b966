//! Byte buffers of the `bytes` crate: what they hold, and what each
//! operation used here does to it.

use bytes::{Buf, BufMut, Bytes, BytesMut};
use vstd::prelude::*;

verus! {

/// The growable buffer of the `bytes` crate.
#[verifier::external_type_specification]
#[verifier::external_body]
pub struct ExBytesMut(bytes::BytesMut);

/// The shared, immutable buffer of the `bytes` crate.
#[verifier::external_type_specification]
#[verifier::external_body]
pub struct ExBytes(bytes::Bytes);

/// The bytes that a growable buffer holds.
pub uninterp spec fn buffer_bytes(b: BytesMut) -> Seq<u8>;

/// The bytes that a shared buffer holds.
pub uninterp spec fn frozen_bytes(b: Bytes) -> Seq<u8>;

/// Calls `BytesMut::new`: a buffer that holds nothing.
#[verifier::external_body]
pub(crate) fn buffer_new() -> (b: BytesMut)
    ensures
        buffer_bytes(b) == Seq::<u8>::empty(),
{
    BytesMut::new()
}

/// Calls `<BytesMut as AsRef<[u8]>>::as_ref`: the held bytes as a slice.
#[verifier::external_body]
pub(crate) fn buffer_slice(b: &BytesMut) -> (s: &[u8])
    ensures
        s@ == buffer_bytes(*b),
{
    b.as_ref()
}

/// Calls `<BytesMut as Buf>::advance`: drops the first `n` bytes.  It panics
/// where fewer are held.
#[verifier::external_body]
pub(crate) fn buffer_advance(b: &mut BytesMut, n: usize)
    requires
        n <= buffer_bytes(*old(b)).len(),
    ensures
        buffer_bytes(*final(b)) == buffer_bytes(*old(b)).skip(n as int),
{
    b.advance(n)
}

/// Calls `BytesMut::split_to`: takes the first `n` bytes out.  It panics where
/// fewer are held.
#[verifier::external_body]
pub(crate) fn buffer_split_to(b: &mut BytesMut, n: usize) -> (front: BytesMut)
    requires
        n <= buffer_bytes(*old(b)).len(),
    ensures
        buffer_bytes(front) == buffer_bytes(*old(b)).take(n as int),
        buffer_bytes(*final(b)) == buffer_bytes(*old(b)).skip(n as int),
{
    b.split_to(n)
}

/// Calls `BytesMut::freeze`: the same bytes, shared and immutable.
#[verifier::external_body]
pub(crate) fn buffer_freeze(b: BytesMut) -> (f: Bytes)
    ensures
        frozen_bytes(f) == buffer_bytes(b),
{
    b.freeze()
}

/// Calls `BytesMut::clear`: drops all bytes.
#[verifier::external_body]
pub(crate) fn buffer_clear(b: &mut BytesMut)
    ensures
        buffer_bytes(*final(b)) == Seq::<u8>::empty(),
{
    b.clear()
}

/// Calls `BytesMut::reserve`: makes room for `n` more bytes and changes none.
/// It panics where the buffer would outgrow the address space.
#[verifier::external_body]
pub(crate) fn buffer_reserve(b: &mut BytesMut, n: usize)
    requires
        buffer_bytes(*old(b)).len() + n <= isize::MAX,
    ensures
        buffer_bytes(*final(b)) == buffer_bytes(*old(b)),
{
    b.reserve(n)
}

/// Calls `<BytesMut as BufMut>::put_u8`: appends one byte.  It panics where
/// the buffer would outgrow the address space.
#[verifier::external_body]
pub(crate) fn buffer_put_u8(b: &mut BytesMut, v: u8)
    requires
        buffer_bytes(*old(b)).len() + 1 <= isize::MAX,
    ensures
        buffer_bytes(*final(b)) == buffer_bytes(*old(b)).push(v),
{
    b.put_u8(v)
}

/// Calls `BytesMut::extend_from_slice`: appends the bytes of a slice.  It
/// panics where the buffer would outgrow the address space.
#[verifier::external_body]
pub(crate) fn buffer_extend(b: &mut BytesMut, s: &[u8])
    requires
        buffer_bytes(*old(b)).len() + s@.len() <= isize::MAX,
    ensures
        buffer_bytes(*final(b)) == buffer_bytes(*old(b)) + s@,
{
    b.extend_from_slice(s)
}

/// Calls `<Bytes as AsRef<[u8]>>::as_ref`: the held bytes as a slice.
#[verifier::external_body]
pub(crate) fn frozen_slice(b: &Bytes) -> (s: &[u8])
    ensures
        s@ == frozen_bytes(*b),
{
    b.as_ref()
}

/// Calls `<Bytes as From<Vec<u8>>>::from`: the bytes of the vector.
#[verifier::external_body]
pub(crate) fn frozen_from_vec(v: Vec<u8>) -> (b: Bytes)
    ensures
        frozen_bytes(b) == v@,
{
    Bytes::from(v)
}

/// Calls `<Bytes as Clone>::clone`: another handle on the same bytes.
#[verifier::external_body]
pub(crate) fn frozen_clone(b: &Bytes) -> (c: Bytes)
    ensures
        frozen_bytes(c) == frozen_bytes(*b),
{
    b.clone()
}

} // verus!
