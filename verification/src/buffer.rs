//! What the transport relies on of the byte buffers of the `bytes` crate.

use bytes::{Bytes, BytesMut};
use vstd::prelude::*;

verus! {

/// The growable buffer of the `bytes` crate, carried as an opaque value.
#[verifier::external_type_specification]
#[verifier::external_body]
pub struct ExBytesMut(bytes::BytesMut);

/// The shared immutable buffer of the `bytes` crate, carried as an opaque value.
#[verifier::external_type_specification]
#[verifier::external_body]
pub struct ExBytes(bytes::Bytes);

/// The bytes that a `BytesMut` holds.
pub uninterp spec fn bytes_mut_view(buf: BytesMut) -> Seq<u8>;

/// The bytes that a `Bytes` holds.
pub uninterp spec fn bytes_view(buf: Bytes) -> Seq<u8>;

/// `BytesMut::with_capacity`: a new buffer holds no bytes, whatever room it reserves.
pub assume_specification[ bytes::BytesMut::with_capacity ](capacity: usize) -> (buf: BytesMut)
    ensures
        bytes_mut_view(buf) == Seq::<u8>::empty(),
;

/// `BytesMut::zeroed`: the buffer holds `len` zero bytes.
pub assume_specification[ bytes::BytesMut::zeroed ](len: usize) -> (buf: BytesMut)
    ensures
        bytes_mut_view(buf) == Seq::new(len as nat, |i: int| 0u8),
;

/// `BytesMut::len`: the number of bytes held.
pub assume_specification[ bytes::BytesMut::len ](buf: &BytesMut) -> (len: usize)
    ensures
        len == bytes_mut_view(*buf).len(),
;

/// `BytesMut::extend_from_slice`: the slice is appended to the bytes held.
pub assume_specification[ bytes::BytesMut::extend_from_slice ](buf: &mut BytesMut, extend: &[u8])
    ensures
        bytes_mut_view(*final(buf)) == bytes_mut_view(*old(buf)) + extend@,
;

/// `BytesMut::clear`: no byte is held afterwards.
pub assume_specification[ bytes::BytesMut::clear ](buf: &mut BytesMut)
    ensures
        bytes_mut_view(*final(buf)) == Seq::<u8>::empty(),
;

/// `BytesMut::split_off`: the buffer keeps the bytes before `at`, and those from `at` on are
/// handed back. An index past the capacity would panic; an index past the length is ruled out.
pub assume_specification[ bytes::BytesMut::split_off ](buf: &mut BytesMut, at: usize) -> (tail:
    BytesMut)
    requires
        at <= bytes_mut_view(*old(buf)).len(),
    ensures
        bytes_mut_view(*final(buf)) == bytes_mut_view(*old(buf)).take(at as int),
        bytes_mut_view(tail) == bytes_mut_view(*old(buf)).skip(at as int),
;

/// `BytesMut::freeze`: the same bytes, no longer to be changed.
pub assume_specification[ bytes::BytesMut::freeze ](buf: BytesMut) -> (frozen: Bytes)
    ensures
        bytes_view(frozen) == bytes_mut_view(buf),
;

/// `BytesMut::as_ref`: the bytes held, as a slice.
#[verifier::external_body]
pub(crate) fn bytes_mut_slice(buf: &BytesMut) -> (slice: &[u8])
    ensures
        slice@ == bytes_mut_view(*buf),
{
    buf.as_ref()
}

/// `BytesMut::as_mut`: the bytes held, as a slice to write to. What is written there is what
/// the buffer holds afterwards.
#[verifier::external_body]
pub(crate) fn bytes_mut_slice_mut(buf: &mut BytesMut) -> (slice: &mut [u8])
    ensures
        slice@ == bytes_mut_view(*old(buf)),
        bytes_mut_view(*final(buf)) == final(slice)@,
{
    buf.as_mut()
}

} // verus!
