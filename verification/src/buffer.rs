//! The byte buffer that responses are written into: `bytes::BytesMut`, with
//! what this library relies on of it.

use vstd::prelude::*;

verus! {

#[verifier::external_type_specification]
#[verifier::external_body]
pub struct ExBytesMut(bytes::BytesMut);

/// The bytes that a buffer holds, in order.
pub uninterp spec fn buf_bytes(buf: bytes::BytesMut) -> Seq<u8>;

/// `BytesMut::new` gives a buffer that holds no byte.
pub assume_specification[ bytes::BytesMut::new ]() -> (buf: bytes::BytesMut)
    ensures
        buf_bytes(buf) == Seq::<u8>::empty(),
;

/// `BytesMut::len` gives the number of bytes that the buffer holds.
pub assume_specification[ bytes::BytesMut::len ](buf: &bytes::BytesMut) -> (n: usize)
    ensures
        n == buf_bytes(*buf).len(),
;

/// `BytesMut::extend_from_slice` puts the bytes of `extend` behind those
/// that the buffer holds. It reserves room first, which panics where the
/// new length overflows; the contract asks for a new length that a buffer
/// can have.
pub assume_specification[ bytes::BytesMut::extend_from_slice ](
    buf: &mut bytes::BytesMut,
    extend: &[u8],
)
    requires
        buf_bytes(*old(buf)).len() + extend@.len() <= isize::MAX,
    ensures
        buf_bytes(*final(buf)) == buf_bytes(*old(buf)) + extend@,
;

} // verus!
