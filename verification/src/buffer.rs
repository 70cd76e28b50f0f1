//! The byte buffer that the decoder reads from and takes frames out of.

use bytes::{Buf, BytesMut};
use vstd::prelude::*;

verus! {

/// `bytes::BytesMut`, a growable buffer of bytes. Nothing of what is inside
/// it is visible here: `buffered` stands for the bytes that it holds.
#[verifier::external_type_specification]
#[verifier::external_body]
pub struct ExBytesMut(BytesMut);

/// The bytes that a buffer holds, from the first that was not yet taken out
/// to the last that was put in.
pub uninterp spec fn buffered(buf: BytesMut) -> Seq<u8>;

/// `BytesMut::as_ref`: the bytes of the buffer as one slice. The buffer is
/// not changed.
#[verifier::external_body]
pub(crate) fn buffer_bytes(buf: &BytesMut) -> (data: &[u8])
    ensures
        data@ == buffered(*buf),
{
    buf.as_ref()
}

/// `Buf::advance` of `BytesMut`: the first `n` bytes leave the buffer, the
/// others stay as they are. The call panics when the buffer holds fewer than
/// `n` bytes, so that is ruled out.
#[verifier::external_body]
pub(crate) fn buffer_advance(buf: &mut BytesMut, n: usize)
    requires
        n <= buffered(*old(buf)).len(),
    ensures
        buffered(*final(buf)) == buffered(*old(buf)).skip(n as int),
{
    buf.advance(n)
}

} // verus!
