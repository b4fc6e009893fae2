//! Trusted bindings to the `bytes` crate: the growable byte buffer used
//! while building variable-length data, and the frozen, shareable byte
//! block in which externally produced payloads arrive.

use vstd::prelude::*;

verus! {

#[verifier::external_type_specification]
#[verifier::external_body]
pub struct ExBytes(bytes::Bytes);

#[verifier::external_type_specification]
#[verifier::external_body]
pub struct ExBytesMut(bytes::BytesMut);

/// The bytes a `bytes::Bytes` block holds.
pub uninterp spec fn bytes_view(b: bytes::Bytes) -> Seq<u8>;

/// The bytes a `bytes::BytesMut` buffer holds.
pub uninterp spec fn bytes_mut_view(b: bytes::BytesMut) -> Seq<u8>;

/// Relies on `BytesMut::with_capacity`: the new buffer contains no data
/// (the capacity is only a reservation).
#[verifier::external_body]
pub(crate) fn bytes_mut_with_capacity(capacity: usize) -> (r: bytes::BytesMut)
    ensures
        bytes_mut_view(r) == Seq::<u8>::empty(),
{
    bytes::BytesMut::with_capacity(capacity)
}

/// Relies on `BytesMut::extend_from_slice`: appends a copy of the slice to
/// the end of the buffer. The combined length is kept under `isize::MAX`,
/// the most the buffer can grow to without its reservation failing.
#[verifier::external_body]
pub(crate) fn bytes_mut_extend(b: &mut bytes::BytesMut, s: &[u8])
    requires
        bytes_mut_view(*old(b)).len() + s@.len() <= isize::MAX,
    ensures
        bytes_mut_view(*final(b)) == bytes_mut_view(*old(b)) + s@,
{
    b.extend_from_slice(s);
}

/// Relies on `BytesMut::len`: the number of bytes the buffer holds.
#[verifier::external_body]
pub(crate) fn bytes_mut_len(b: &bytes::BytesMut) -> (r: usize)
    ensures
        r == bytes_mut_view(*b).len(),
{
    b.len()
}

/// Relies on `BytesMut::freeze`: the frozen block holds the same bytes as
/// the buffer it came from.
#[verifier::external_body]
pub(crate) fn bytes_mut_freeze(b: bytes::BytesMut) -> (r: bytes::Bytes)
    ensures
        bytes_view(r) == bytes_mut_view(b),
{
    b.freeze()
}

/// Relies on `Bytes::len`: the number of bytes the block holds.
#[verifier::external_body]
pub(crate) fn bytes_len(b: &bytes::Bytes) -> (r: usize)
    ensures
        r == bytes_view(*b).len(),
{
    b.len()
}

/// Relies on `Bytes`'s slice access (through `AsRef<[u8]>`): a copy of the
/// bytes the block holds, in order.
#[verifier::external_body]
pub(crate) fn bytes_to_vec(b: &bytes::Bytes) -> (r: Vec<u8>)
    ensures
        r@ == bytes_view(*b),
{
    b.as_ref().to_vec()
}

} // verus!
