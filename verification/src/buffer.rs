//! The output buffer of the encoders: `bytes::BytesMut`, the type the
//! postgres wire layer hands an encoder to append into. The type is opaque
//! here; `bytes_view` names the byte sequence it holds, and the three
//! appenders below are the only operations the codecs perform on it.

use vstd::prelude::*;
use bytes::BufMut;
use bytes::BytesMut;
use crate::wire::u16_bytes;
use crate::wire::u32_bytes;

verus! {

#[verifier::external_type_specification]
#[verifier::external_body]
pub struct ExBytesMut(BytesMut);

/// The bytes a `BytesMut` currently holds, in order.
pub uninterp spec fn bytes_view(b: BytesMut) -> Seq<u8>;

/// Relies on `bytes::BytesMut::new`: a freshly created buffer holds no
/// bytes.
#[verifier::external_body]
pub(crate) fn bytes_mut_new() -> (r: BytesMut)
    ensures
        bytes_view(r) == Seq::<u8>::empty(),
{
    BytesMut::new()
}

/// Relies on `bytes::BufMut::put_u16` for `BytesMut`: appends the two
/// big-endian bytes of `n`, growing the buffer as needed. The bound keeps the
/// buffer under its maximal allocation of `isize::MAX` bytes, below which the
/// call cannot fail.
#[verifier::external_body]
pub(crate) fn put_u16_be(w: &mut BytesMut, n: u16)
    requires
        bytes_view(*old(w)).len() + 2 <= isize::MAX as int,
    ensures
        bytes_view(*final(w)) == bytes_view(*old(w)) + u16_bytes(n),
{
    w.put_u16(n);
}

/// Relies on `bytes::BufMut::put_u32` for `BytesMut`: appends the four
/// big-endian bytes of `n`, growing the buffer as needed. The bound keeps the
/// buffer under its maximal allocation of `isize::MAX` bytes, below which the
/// call cannot fail.
#[verifier::external_body]
pub(crate) fn put_u32_be(w: &mut BytesMut, n: u32)
    requires
        bytes_view(*old(w)).len() + 4 <= isize::MAX as int,
    ensures
        bytes_view(*final(w)) == bytes_view(*old(w)) + u32_bytes(n),
{
    w.put_u32(n);
}

/// Relies on `bytes::BufMut::put_i32` for `BytesMut`: appends the four
/// big-endian bytes of `n`'s two's-complement bit pattern, growing the buffer
/// as needed. The bound keeps the buffer under its maximal allocation of
/// `isize::MAX` bytes, below which the call cannot fail.
#[verifier::external_body]
pub(crate) fn put_i32_be(w: &mut BytesMut, n: i32)
    requires
        bytes_view(*old(w)).len() + 4 <= isize::MAX as int,
    ensures
        bytes_view(*final(w)) == bytes_view(*old(w)) + u32_bytes(n as u32),
{
    w.put_i32(n);
}

} // verus!
