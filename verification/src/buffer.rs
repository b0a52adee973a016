//! The byte buffers that messages are written to and read from.

use bytes::{Buf, BufMut, BytesMut};
use vstd::prelude::*;

verus! {

/// The `bytes` crate's buffer, of which Verus sees nothing but the name
/// [`contents`].
#[verifier::external_type_specification]
#[verifier::external_body]
pub struct ExBytesMut(bytes::BytesMut);

/// The bytes in a buffer that were written to it and not yet read.
pub uninterp spec fn contents(buf: BytesMut) -> Seq<u8>;

/// The four bytes of an integer, the most significant first.
pub open spec fn be32(n: u32) -> Seq<u8> {
    seq![
        (n / 0x100_0000) as u8,
        ((n / 0x1_0000) % 0x100) as u8,
        ((n / 0x100) % 0x100) as u8,
        (n % 0x100) as u8,
    ]
}

/// The integer at the front of the bytes, the most significant byte first.
pub open spec fn from_be32(bytes: Seq<u8>) -> u32 {
    (bytes[0] * 0x100_0000 + bytes[1] * 0x1_0000 + bytes[2] * 0x100 + bytes[3]) as u32
}

/// An integer that is written as four bytes can be read back.
pub proof fn law_be32_round_trip(n: u32)
    ensures
        be32(n).len() == 4,
        from_be32(be32(n)) == n,
{
}

/// Reading depends on the first four bytes only.
pub proof fn lemma_from_be32_prefix(n: u32, rest: Seq<u8>)
    ensures
        from_be32(be32(n) + rest) == n,
{
    law_be32_round_trip(n);
    let s = be32(n) + rest;
    assert(s[0] == be32(n)[0]);
    assert(s[1] == be32(n)[1]);
    assert(s[2] == be32(n)[2]);
    assert(s[3] == be32(n)[3]);
}

/// The `bytes` function `Buf::remaining`, on a `BytesMut`, gives the number of
/// bytes that can be read. A buffer's length, like that of every allocation, is
/// at most `isize::MAX`.
#[verifier::external_body]
pub(crate) fn remaining(buf: &BytesMut) -> (r: usize)
    ensures
        r == contents(*buf).len(),
        r <= isize::MAX,
{
    buf.remaining()
}

/// The `bytes` function `Buf::bytes`, on a `BytesMut`, gives all the bytes that
/// can be read, and reads none.
#[verifier::external_body]
pub(crate) fn peek(buf: &BytesMut) -> (r: &[u8])
    ensures
        r@ == contents(*buf),
{
    buf.bytes()
}

/// The `bytes` function `Buf::advance`, on a `BytesMut`, skips the given number
/// of bytes. It panics if there are fewer.
#[verifier::external_body]
pub(crate) fn advance(buf: &mut BytesMut, count: usize)
    requires
        count <= contents(*old(buf)).len(),
    ensures
        contents(*final(buf)) == contents(*old(buf)).skip(count as int),
{
    buf.advance(count)
}

/// The `bytes` function `Buf::get_u8` reads one byte. It panics if there is none.
#[verifier::external_body]
pub(crate) fn get_u8(buf: &mut BytesMut) -> (r: u8)
    requires
        contents(*old(buf)).len() >= 1,
    ensures
        r == contents(*old(buf))[0],
        contents(*final(buf)) == contents(*old(buf)).skip(1),
{
    buf.get_u8()
}

/// The `bytes` function `Buf::get_u32` reads four bytes as an integer, the most
/// significant byte first. It panics if there are fewer.
#[verifier::external_body]
pub(crate) fn get_u32(buf: &mut BytesMut) -> (r: u32)
    requires
        contents(*old(buf)).len() >= 4,
    ensures
        r == from_be32(contents(*old(buf))),
        contents(*final(buf)) == contents(*old(buf)).skip(4),
{
    buf.get_u32()
}

/// The `bytes` function `Buf::copy_to_slice` reads as many bytes as the slice
/// holds into it. It panics if there are fewer.
#[verifier::external_body]
pub(crate) fn copy_to_slice(buf: &mut BytesMut, dst: &mut [u8])
    requires
        old(dst)@.len() <= contents(*old(buf)).len(),
    ensures
        final(dst)@ == contents(*old(buf)).take(old(dst)@.len() as int),
        contents(*final(buf)) == contents(*old(buf)).skip(old(dst)@.len() as int),
{
    buf.copy_to_slice(dst)
}

/// The `bytes` function `BufMut::put_u8`, on a `BytesMut`, appends one byte. It
/// panics if the buffer cannot grow.
#[verifier::external_body]
pub(crate) fn put_u8(buf: &mut BytesMut, n: u8)
    requires
        contents(*old(buf)).len() + 1 <= isize::MAX,
    ensures
        contents(*final(buf)) == contents(*old(buf)).push(n),
{
    buf.put_u8(n)
}

/// The `bytes` function `BufMut::put_u32`, on a `BytesMut`, appends an integer as
/// four bytes, the most significant first. It panics if the buffer cannot grow.
#[verifier::external_body]
pub(crate) fn put_u32(buf: &mut BytesMut, n: u32)
    requires
        contents(*old(buf)).len() + 4 <= isize::MAX,
    ensures
        contents(*final(buf)) == contents(*old(buf)) + be32(n),
{
    buf.put_u32(n)
}

/// The `bytes` function `BytesMut::extend_from_slice` appends the bytes. It
/// panics if the buffer cannot grow.
#[verifier::external_body]
pub(crate) fn extend_from_slice(buf: &mut BytesMut, bytes: &[u8])
    requires
        contents(*old(buf)).len() + bytes@.len() <= isize::MAX,
    ensures
        contents(*final(buf)) == contents(*old(buf)) + bytes@,
{
    buf.extend_from_slice(bytes)
}

/// An integer is written with the most significant byte first, and read likewise.
pub proof fn law_integers_are_big_endian(n: u32, bytes: Seq<u8>)
    requires
        bytes.len() >= 4,
    ensures
        be32(n).len() == 4,
        n == 256 * (256 * (256 * be32(n)[0] + be32(n)[1]) + be32(n)[2]) + be32(n)[3],
        from_be32(bytes) == 256 * (256 * (256 * bytes[0] + bytes[1]) + bytes[2]) + bytes[3],
{
}

} // verus!
