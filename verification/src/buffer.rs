//! The byte buffers that carry commands to the camera and its bytes back.

use tokio_util::bytes::{Buf, BufMut, BytesMut};
use vstd::prelude::*;

verus! {

/// A buffer of bytes, appended to at its end and read from its front.
#[verifier::external_type_specification]
#[verifier::external_body]
pub struct ExBytesMut(tokio_util::bytes::BytesMut);

/// The bytes that a buffer holds, front first.
pub uninterp spec fn buffered(buffer: BytesMut) -> Seq<u8>;

/// Calls `BytesMut::extend_from_slice`.
///
/// Claims that the bytes stand behind those that the buffer held. A buffer cannot grow past
/// `isize::MAX` bytes. That the memory can be had is left unsaid, as it is of `Vec::push`.
#[verifier::external_body]
pub(crate) fn append(dst: &mut BytesMut, bytes: &[u8])
    requires
        buffered(*old(dst)).len() + bytes@.len() <= isize::MAX,
    ensures
        buffered(*final(dst)) == buffered(*old(dst)) + bytes@,
{
    dst.extend_from_slice(bytes)
}

/// Calls `BufMut::put_u8`.
///
/// Claims that the byte stands behind those that the buffer held, within the same limit.
#[verifier::external_body]
pub(crate) fn append_byte(dst: &mut BytesMut, byte: u8)
    requires
        buffered(*old(dst)).len() + 1 <= isize::MAX,
    ensures
        buffered(*final(dst)) == buffered(*old(dst)).push(byte),
{
    dst.put_u8(byte)
}

/// Calls `Buf::remaining`.
///
/// Claims that it counts the bytes that the buffer holds.
#[verifier::external_body]
pub(crate) fn remaining(src: &BytesMut) -> (count: usize)
    ensures
        count == buffered(*src).len(),
{
    src.remaining()
}

/// Calls `Buf::get_u8`, which panics on an empty buffer.
///
/// Claims that it removes the first byte and returns it.
#[verifier::external_body]
pub(crate) fn take_byte(src: &mut BytesMut) -> (byte: u8)
    requires
        buffered(*old(src)).len() > 0,
    ensures
        byte == buffered(*old(src))[0],
        buffered(*final(src)) == buffered(*old(src)).skip(1),
{
    src.get_u8()
}

/// Calls `BytesMut::as_ref`.
///
/// Claims that it shows the bytes that the buffer holds.
#[verifier::external_body]
pub(crate) fn contents(src: &BytesMut) -> (bytes: &[u8])
    ensures
        bytes@ == buffered(*src),
{
    src.as_ref()
}

/// Whether `extra` more bytes fit a buffer.
pub fn has_room(dst: &BytesMut, extra: usize) -> (r: bool)
    ensures
        r == (buffered(*dst).len() + extra <= isize::MAX),
{
    let limit: usize = isize::MAX as usize;
    let held: usize = remaining(dst);
    held <= limit && extra <= limit - held
}

} // verus!
