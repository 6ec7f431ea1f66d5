//! The receive buffer that decoding reads from and consumes.

use bytes::{Buf, BytesMut};
use vstd::prelude::*;

verus! {

/// `bytes::BytesMut`, a growable byte buffer that is consumed from the front. All
/// that is said of it goes through `contents`.
#[verifier::external_type_specification]
#[verifier::external_body]
pub struct ExBytesMut(BytesMut);

/// The bytes a buffer holds, front first.
pub uninterp spec fn contents(buf: BytesMut) -> Seq<u8>;

/// `<BytesMut as AsRef<[u8]>>::as_ref`: the whole readable part of the buffer as a
/// slice, without consuming anything.
#[verifier::external_body]
pub(crate) fn peek(buf: &BytesMut) -> (bytes: &[u8])
    ensures
        bytes@ == contents(*buf),
{
    buf.as_ref()
}

/// `<BytesMut as Buf>::advance`: drops the first `n` bytes and keeps the rest in
/// order. The call panics when `n` exceeds the length, which `requires` rules out.
#[verifier::external_body]
pub(crate) fn consume(buf: &mut BytesMut, n: usize)
    requires
        n <= contents(*old(buf)).len(),
    ensures
        contents(*final(buf)) == contents(*old(buf)).skip(n as int),
{
    buf.advance(n)
}

} // verus!
