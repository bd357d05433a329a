//! The byte buffer of the `bytes` crate, as far as the codec uses it.
//!
//! A framed stream hands its codec a `BytesMut`: bytes that have arrived and
//! wait to be decoded, or room for bytes that are to be sent. What such a
//! buffer holds is named [`contents`]; everything said here about the
//! buffer's methods is taken on trust from the `bytes` crate.

use bytes::{Buf, BufMut, BytesMut};
use vstd::prelude::*;

verus! {

/// `bytes::BytesMut`, the buffer that a framed stream hands to its codec.
#[verifier::external_type_specification]
#[verifier::external_body]
pub struct ExBytesMut(BytesMut);

/// The bytes that a `BytesMut` holds, first to last.
pub uninterp spec fn contents(buf: BytesMut) -> Seq<u8>;

/// The bytes of a `BytesMut` as a slice, through its `Deref`.
///
/// Trusted: the slice is the buffer's [`contents`].
#[verifier::external_body]
pub(crate) fn as_slice(buf: &BytesMut) -> (bytes: &[u8])
    ensures
        bytes@ == contents(*buf),
{
    &buf[..]
}

/// `Buf::advance` on a `BytesMut`, which panics when asked to go past the
/// end.
///
/// Trusted: the first `cnt` bytes leave the buffer and the rest stay.
#[verifier::external_body]
pub(crate) fn advance(buf: &mut BytesMut, cnt: usize)
    requires
        cnt <= contents(*old(buf)).len(),
    ensures
        contents(*final(buf)) == contents(*old(buf)).skip(cnt as int),
{
    buf.advance(cnt)
}

/// `BufMut::put_slice` on a `BytesMut`, which grows as needed.
///
/// Trusted: `src` is appended to the buffer.
#[verifier::external_body]
pub(crate) fn put_slice(buf: &mut BytesMut, src: &[u8])
    ensures
        contents(*final(buf)) == contents(*old(buf)) + src@,
{
    buf.put_slice(src)
}

} // verus!
