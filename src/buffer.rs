//! The byte buffers of the `bytes` crate, as the decoder sees them.
use vstd::prelude::*;

verus! {

#[verifier::external_type_specification]
#[verifier::external_body]
pub struct ExBytes(bytes::Bytes);

#[verifier::external_type_specification]
#[verifier::external_body]
pub struct ExBytesMut(bytes::BytesMut);

/// The bytes that an immutable `bytes::Bytes` holds.
pub uninterp spec fn bytes_content(b: bytes::Bytes) -> Seq<u8>;

/// The bytes that a growable `bytes::BytesMut` holds.
pub uninterp spec fn buffer_content(b: bytes::BytesMut) -> Seq<u8>;

/// Relies on `<Bytes as Deref>::deref`: the slice is exactly the held bytes.
#[verifier::external_body]
pub(crate) fn bytes_as_slice(b: &bytes::Bytes) -> (r: &[u8])
    ensures
        r@ == bytes_content(*b),
{
    &b[..]
}

/// Relies on `BytesMut::new`: a new buffer is empty.
#[verifier::external_body]
pub(crate) fn new_buffer() -> (r: bytes::BytesMut)
    ensures
        buffer_content(r) == Seq::<u8>::empty(),
{
    bytes::BytesMut::new()
}

/// Relies on `BytesMut::len`: the number of bytes held.
#[verifier::external_body]
pub(crate) fn buffer_len(b: &bytes::BytesMut) -> (r: usize)
    ensures
        r == buffer_content(*b).len(),
{
    b.len()
}

/// Relies on `BytesMut::extend_from_slice`: the slice is appended at the end.
/// Its `reserve` panics when the new length overflows, and an allocation
/// cannot exceed `isize::MAX` bytes.
#[verifier::external_body]
pub(crate) fn buffer_append(b: &mut bytes::BytesMut, s: &[u8])
    requires
        buffer_content(*old(b)).len() + s@.len() <= isize::MAX,
    ensures
        buffer_content(*final(b)) == buffer_content(*old(b)) + s@,
{
    b.extend_from_slice(s)
}

} // verus!
