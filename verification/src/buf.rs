//! The byte buffers of the `bytes` crate, as the verifier sees them.
//!
//! `Bytes` is a read cursor over immutable bytes and `BytesMut` a growable
//! write buffer. Both are opaque here: what they hold is named by
//! [`bytes_contents`] and [`bytes_mut_contents`], and every function below
//! states, without proof, what one method of the crate does to those contents.

use vstd::prelude::*;
use bytes::{Buf, BufMut, Bytes, BytesMut};

verus! {

/// `bytes::Bytes`, carried through as an opaque value.
#[verifier::external_type_specification]
#[verifier::external_body]
pub struct ExBytes(bytes::Bytes);

/// `bytes::BytesMut`, carried through as an opaque value.
#[verifier::external_type_specification]
#[verifier::external_body]
pub struct ExBytesMut(bytes::BytesMut);

/// The bytes that a `Bytes` handle still has to give, cursor first.
pub uninterp spec fn bytes_contents(b: Bytes) -> Seq<u8>;

/// The bytes written to a `BytesMut` so far, oldest first.
pub uninterp spec fn bytes_mut_contents(b: BytesMut) -> Seq<u8>;

/// The big-endian value of two bytes.
#[verifier::opaque]
pub open spec fn be_u16(hi: u8, lo: u8) -> u16 {
    (hi as int * 256 + lo as int) as u16
}

/// The big-endian value of four bytes, most significant first.
#[verifier::opaque]
pub open spec fn be_u32(b0: u8, b1: u8, b2: u8, b3: u8) -> u32 {
    (b0 as int * 16777216 + b1 as int * 65536 + b2 as int * 256 + b3 as int) as u32
}

/// The two bytes of `n`, most significant first.
pub open spec fn wire_u16(n: u16) -> Seq<u8> {
    seq![(n / 256) as u8, (n % 256) as u8]
}

/// The four bytes of `n`, most significant first.
pub open spec fn wire_u32(n: u32) -> Seq<u8> {
    seq![(n / 16777216) as u8, (n / 65536 % 256) as u8, (n / 256 % 256) as u8, (n % 256) as u8]
}

/// `Bytes::len`: the number of bytes the handle holds.
pub assume_specification[ Bytes::len ](b: &Bytes) -> (n: usize)
    ensures
        n == bytes_contents(*b).len(),
;

/// `Bytes::from_static`: a handle on the given bytes.
pub assume_specification[ Bytes::from_static ](bytes: &'static [u8]) -> (r: Bytes)
    ensures
        bytes_contents(r) == bytes@,
;

/// `BytesMut::len`: the number of bytes written so far.
pub assume_specification[ BytesMut::len ](b: &BytesMut) -> (n: usize)
    ensures
        n == bytes_mut_contents(*b).len(),
;

/// `BytesMut::new`: a buffer that holds nothing.
pub assume_specification[ BytesMut::new ]() -> (b: BytesMut)
    ensures
        bytes_mut_contents(b) == Seq::<u8>::empty(),
;

/// `BytesMut::freeze`: the same bytes, now immutable.
pub assume_specification[ BytesMut::freeze ](b: BytesMut) -> (r: Bytes)
    ensures
        bytes_contents(r) == bytes_mut_contents(b),
;

/// `Buf::get_u8` on `Bytes`: hands out the first byte and moves the cursor
/// past it. The method panics on an empty buffer, which `requires` excludes.
#[verifier::external_body]
pub(crate) fn get_u8(src: &mut Bytes) -> (r: u8)
    requires
        bytes_contents(*old(src)).len() >= 1,
    ensures
        r == bytes_contents(*old(src))[0],
        bytes_contents(*final(src)) == bytes_contents(*old(src)).skip(1),
{
    src.get_u8()
}

/// `Buf::get_u16` on `Bytes`: reads two bytes as a big-endian integer and
/// moves the cursor past them. It panics when fewer than two bytes remain.
#[verifier::external_body]
pub(crate) fn get_u16(src: &mut Bytes) -> (r: u16)
    requires
        bytes_contents(*old(src)).len() >= 2,
    ensures
        r == be_u16(bytes_contents(*old(src))[0], bytes_contents(*old(src))[1]),
        bytes_contents(*final(src)) == bytes_contents(*old(src)).skip(2),
{
    src.get_u16()
}

/// `Buf::get_u32` on `Bytes`: reads four bytes as a big-endian integer and
/// moves the cursor past them. It panics when fewer than four bytes remain.
#[verifier::external_body]
pub(crate) fn get_u32(src: &mut Bytes) -> (r: u32)
    requires
        bytes_contents(*old(src)).len() >= 4,
    ensures
        r == be_u32(
            bytes_contents(*old(src))[0],
            bytes_contents(*old(src))[1],
            bytes_contents(*old(src))[2],
            bytes_contents(*old(src))[3],
        ),
        bytes_contents(*final(src)) == bytes_contents(*old(src)).skip(4),
{
    src.get_u32()
}

/// `Buf::copy_to_bytes` on `Bytes`: splits off the first `len` bytes as a
/// handle of their own and leaves the rest. It panics when `len` exceeds what
/// remains.
#[verifier::external_body]
pub(crate) fn copy_to_bytes(src: &mut Bytes, len: usize) -> (r: Bytes)
    requires
        len <= bytes_contents(*old(src)).len(),
    ensures
        bytes_contents(r) == bytes_contents(*old(src)).take(len as int),
        bytes_contents(*final(src)) == bytes_contents(*old(src)).skip(len as int),
{
    src.copy_to_bytes(len)
}

/// `AsRef<[u8]>` of `Bytes`: the held bytes as a slice.
#[verifier::external_body]
pub(crate) fn bytes_as_slice(b: &Bytes) -> (r: &[u8])
    ensures
        r@ == bytes_contents(*b),
{
    b.as_ref()
}

/// `AsRef<[u8]>` of `BytesMut`: the written bytes as a slice.
#[verifier::external_body]
pub(crate) fn bytes_mut_as_slice(b: &BytesMut) -> (r: &[u8])
    ensures
        r@ == bytes_mut_contents(*b),
{
    b.as_ref()
}

/// `BufMut::put_u8` on `BytesMut`: appends one byte. The buffer grows as
/// needed; growth past `isize::MAX` bytes panics, which `requires` excludes.
#[verifier::external_body]
pub(crate) fn put_u8(dst: &mut BytesMut, n: u8)
    requires
        bytes_mut_contents(*old(dst)).len() + 1 <= isize::MAX,
    ensures
        bytes_mut_contents(*final(dst)) == bytes_mut_contents(*old(dst)).push(n),
{
    dst.put_u8(n)
}

/// `BufMut::put_u16` on `BytesMut`: appends the two bytes of `n`, most
/// significant first. Growth past `isize::MAX` bytes panics.
#[verifier::external_body]
pub(crate) fn put_u16(dst: &mut BytesMut, n: u16)
    requires
        bytes_mut_contents(*old(dst)).len() + 2 <= isize::MAX,
    ensures
        bytes_mut_contents(*final(dst)) == bytes_mut_contents(*old(dst)) + wire_u16(n),
{
    dst.put_u16(n)
}

/// `BufMut::put_u32` on `BytesMut`: appends the four bytes of `n`, most
/// significant first. Growth past `isize::MAX` bytes panics.
#[verifier::external_body]
pub(crate) fn put_u32(dst: &mut BytesMut, n: u32)
    requires
        bytes_mut_contents(*old(dst)).len() + 4 <= isize::MAX,
    ensures
        bytes_mut_contents(*final(dst)) == bytes_mut_contents(*old(dst)) + wire_u32(n),
{
    dst.put_u32(n)
}

/// `BufMut::put_slice` on `BytesMut`: appends all of `src`. Growth past
/// `isize::MAX` bytes panics.
#[verifier::external_body]
pub(crate) fn put_slice(dst: &mut BytesMut, src: &[u8])
    requires
        bytes_mut_contents(*old(dst)).len() + src@.len() <= isize::MAX,
    ensures
        bytes_mut_contents(*final(dst)) == bytes_mut_contents(*old(dst)) + src@,
{
    dst.put_slice(src)
}

} // verus!
