//! Growable output buffers and the big-endian layout of fixed-width integers.

use bytes::BufMut;
use bytes::BytesMut;
use vstd::prelude::*;

verus! {

#[verifier::external_type_specification]
#[verifier::external_body]
pub struct ExBytesMut(BytesMut);

/// The bytes held by an output buffer, in order.
pub uninterp spec fn buf_bytes(b: BytesMut) -> Seq<u8>;

/// Largest number of bytes an output buffer may be asked to hold.
pub open spec fn buf_limit() -> int {
    isize::MAX as int
}

/// Big-endian layout of a 16-bit value.
pub open spec fn be16(v: u16) -> Seq<u8> {
    seq![(v >> 8u16) as u8, (v & 0xffu16) as u8]
}

/// Big-endian layout of a 32-bit value.
pub open spec fn be32(v: u32) -> Seq<u8> {
    seq![
        (v >> 24u32) as u8,
        ((v >> 16u32) & 0xffu32) as u8,
        ((v >> 8u32) & 0xffu32) as u8,
        (v & 0xffu32) as u8,
    ]
}

/// The 16-bit value whose big-endian layout is `hi`, `lo`.
pub open spec fn from_be16(hi: u8, lo: u8) -> u16 {
    ((hi as u16) << 8u16) | (lo as u16)
}

/// Relies on `BytesMut::with_capacity`: the new buffer holds no bytes.
#[verifier::external_body]
pub(crate) fn new_buf(capacity: usize) -> (r: BytesMut)
    ensures
        buf_bytes(r) == Seq::<u8>::empty(),
{
    BytesMut::with_capacity(capacity)
}

/// An empty output buffer with room for `capacity` bytes before it grows, to
/// hand to the `write` methods of this library.
pub fn output_buffer(capacity: usize) -> (r: BytesMut)
    ensures
        buf_bytes(r) == Seq::<u8>::empty(),
{
    new_buf(capacity)
}

/// Relies on `BufMut::put_u8` for `BytesMut`: appends one byte, growing as needed.
#[verifier::external_body]
pub(crate) fn put_u8(buf: &mut BytesMut, v: u8)
    requires
        buf_bytes(*old(buf)).len() + 1 <= buf_limit(),
    ensures
        buf_bytes(*final(buf)) == buf_bytes(*old(buf)).push(v),
{
    buf.put_u8(v)
}

/// Relies on `BufMut::put_u16` for `BytesMut`: appends the value big-endian.
#[verifier::external_body]
pub(crate) fn put_u16(buf: &mut BytesMut, v: u16)
    requires
        buf_bytes(*old(buf)).len() + 2 <= buf_limit(),
    ensures
        buf_bytes(*final(buf)) == buf_bytes(*old(buf)) + be16(v),
{
    buf.put_u16(v)
}

/// Relies on `BufMut::put_u32` for `BytesMut`: appends the value big-endian.
#[verifier::external_body]
pub(crate) fn put_u32(buf: &mut BytesMut, v: u32)
    requires
        buf_bytes(*old(buf)).len() + 4 <= buf_limit(),
    ensures
        buf_bytes(*final(buf)) == buf_bytes(*old(buf)) + be32(v),
{
    buf.put_u32(v)
}

/// Relies on `BufMut::put_slice` for `BytesMut`: appends the slice's bytes.
#[verifier::external_body]
pub(crate) fn put_slice(buf: &mut BytesMut, s: &[u8])
    requires
        buf_bytes(*old(buf)).len() + s@.len() <= buf_limit(),
    ensures
        buf_bytes(*final(buf)) == buf_bytes(*old(buf)) + s@,
{
    buf.put_slice(s)
}

/// Relies on `From<BytesMut> for Vec<u8>`: the vector holds the buffer's bytes.
#[verifier::external_body]
pub(crate) fn buf_into_vec(b: BytesMut) -> (r: Vec<u8>)
    ensures
        r@ == buf_bytes(b),
{
    Vec::from(b)
}

/// Relies on `String::from_utf8`: succeeds exactly on well-formed UTF-8 and then
/// holds the characters those bytes encode.
#[verifier::external_body]
pub(crate) fn string_from_utf8(v: Vec<u8>) -> (r: Option<String>)
    ensures
        r is Some <==> vstd::utf8::valid_utf8(v@),
        r matches Some(s) ==> s@ == vstd::utf8::decode_utf8(v@),
{
    String::from_utf8(v).ok()
}

/// Reading back a big-endian 16-bit layout gives the value.
pub proof fn lemma_be16_round_trip(v: u16)
    ensures
        from_be16(be16(v)[0], be16(v)[1]) == v,
{
    assert((((((v >> 8u16) as u8) as u16) << 8u16) | (((v & 0xffu16) as u8) as u16)) == v)
        by (bit_vector);
}

/// Laying out a value read from two bytes gives those bytes back.
pub proof fn lemma_from_be16_round_trip(hi: u8, lo: u8)
    ensures
        be16(from_be16(hi, lo)) == seq![hi, lo],
{
    let v = from_be16(hi, lo);
    assert((((((hi as u16) << 8u16) | (lo as u16)) >> 8u16) as u8) == hi) by (bit_vector);
    assert((((((hi as u16) << 8u16) | (lo as u16)) & 0xffu16) as u8) == lo) by (bit_vector);
    assert(be16(v) =~= seq![hi, lo]);
}

} // verus!
