//! The byte buffers of the `bytes` crate, as the rest of the library sees them.
//!
//! Every item here is trusted: Verus reads the contracts, not the calls.
use bytes::{BufMut, Bytes, BytesMut};
use vstd::prelude::*;

verus! {

/// `bytes::Bytes`, an immutable, cheaply cloneable byte buffer.
#[verifier::external_type_specification]
#[verifier::external_body]
pub struct ExBytes(Bytes);

/// `bytes::BytesMut`, a growable byte buffer.
#[verifier::external_type_specification]
#[verifier::external_body]
pub struct ExBytesMut(BytesMut);

/// The bytes that a `Bytes` handle shows, in order.
pub uninterp spec fn bytes_contents(b: Bytes) -> Seq<u8>;

/// The bytes written so far into a `BytesMut`, in order.
pub uninterp spec fn bytes_mut_contents(b: BytesMut) -> Seq<u8>;

/// The largest length a `BytesMut` can grow to: its `BufMut::remaining_mut`
/// is `isize::MAX - len`, and writing past it panics.
pub open spec fn bytes_mut_limit() -> int {
    isize::MAX as int
}

/// `Bytes::from(Vec<u8>)`: takes over the vector and shows exactly its bytes.
#[verifier::external_body]
pub(crate) fn bytes_from_vec(v: Vec<u8>) -> (r: Bytes)
    ensures
        bytes_contents(r) == v@,
{
    Bytes::from(v)
}

/// `Bytes::len`: the number of bytes shown.
#[verifier::external_body]
pub(crate) fn bytes_len(b: &Bytes) -> (r: usize)
    ensures
        r == bytes_contents(*b).len(),
{
    b.len()
}

/// `<Bytes as AsRef<[u8]>>::as_ref`: the shown bytes as a slice.
#[verifier::external_body]
pub(crate) fn bytes_as_slice(b: &Bytes) -> (r: &[u8])
    ensures
        r@ == bytes_contents(*b),
{
    b.as_ref()
}

/// `Bytes::slice(begin..end)`: a handle on the bytes from `begin` up to
/// `end`; it panics unless `begin <= end <= len`.
#[verifier::external_body]
pub(crate) fn bytes_slice(b: &Bytes, begin: usize, end: usize) -> (r: Bytes)
    requires
        begin <= end <= bytes_contents(*b).len(),
    ensures
        bytes_contents(r) == bytes_contents(*b).subrange(begin as int, end as int),
{
    b.slice(begin..end)
}

/// `<Bytes as Clone>::clone`: a second handle on the same bytes.
#[verifier::external_body]
pub(crate) fn bytes_clone(b: &Bytes) -> (r: Bytes)
    ensures
        bytes_contents(r) == bytes_contents(*b),
{
    b.clone()
}

/// `BytesMut::with_capacity`: an empty buffer.
#[verifier::external_body]
pub(crate) fn bytes_mut_with_capacity(capacity: usize) -> (r: BytesMut)
    ensures
        bytes_mut_contents(r) == Seq::<u8>::empty(),
{
    BytesMut::with_capacity(capacity)
}

/// `BytesMut::len`: the number of bytes written.
#[verifier::external_body]
pub(crate) fn bytes_mut_len(b: &BytesMut) -> (r: usize)
    ensures
        r == bytes_mut_contents(*b).len(),
{
    b.len()
}

/// `BufMut::put_u8` on a `BytesMut`: appends one byte.
#[verifier::external_body]
pub(crate) fn bytes_mut_put_u8(b: &mut BytesMut, v: u8)
    requires
        bytes_mut_contents(*old(b)).len() + 1 <= bytes_mut_limit(),
    ensures
        bytes_mut_contents(*final(b)) == bytes_mut_contents(*old(b)).push(v),
{
    b.put_u8(v)
}

/// `BufMut::put_u16` on a `BytesMut`: appends the two bytes of `v`,
/// most significant first.
#[verifier::external_body]
pub(crate) fn bytes_mut_put_u16(b: &mut BytesMut, v: u16)
    requires
        bytes_mut_contents(*old(b)).len() + 2 <= bytes_mut_limit(),
    ensures
        bytes_mut_contents(*final(b)) == bytes_mut_contents(*old(b)) + crate::wire::u16_bytes(v),
{
    b.put_u16(v)
}

/// `BufMut::put_u32` on a `BytesMut`: appends the four bytes of `v`,
/// most significant first.
#[verifier::external_body]
pub(crate) fn bytes_mut_put_u32(b: &mut BytesMut, v: u32)
    requires
        bytes_mut_contents(*old(b)).len() + 4 <= bytes_mut_limit(),
    ensures
        bytes_mut_contents(*final(b)) == bytes_mut_contents(*old(b)) + crate::wire::u32_bytes(v),
{
    b.put_u32(v)
}

/// `BufMut::put_slice` on a `BytesMut`: appends the bytes of `src`.
#[verifier::external_body]
pub(crate) fn bytes_mut_put_slice(b: &mut BytesMut, src: &[u8])
    requires
        bytes_mut_contents(*old(b)).len() + src@.len() <= bytes_mut_limit(),
    ensures
        bytes_mut_contents(*final(b)) == bytes_mut_contents(*old(b)) + src@,
{
    b.put_slice(src)
}

/// `BytesMut::freeze`: an immutable handle on the bytes written.
#[verifier::external_body]
pub(crate) fn bytes_mut_freeze(b: BytesMut) -> (r: Bytes)
    ensures
        bytes_contents(r) == bytes_mut_contents(b),
{
    b.freeze()
}

} // verus!
