//! The byte queue that the codec reads from and writes to: `bytes::BytesMut`,
//! with what the codec relies on of its methods.

use bytes::{BigEndian, ByteOrder, BytesMut};
use vstd::prelude::*;

use crate::big_endian::{be_bytes, be_value};

verus! {

/// `bytes::BytesMut`, taken as it is: what it holds is told by `contents`.
#[verifier::external_type_specification]
#[verifier::external_body]
pub struct ExBytesMut(bytes::BytesMut);

/// The bytes that a buffer holds, front first.
pub uninterp spec fn contents(buf: BytesMut) -> Seq<u8>;

/// `BytesMut::len`: the number of bytes that the buffer holds.
#[verifier::external_body]
pub(crate) fn buf_len(buf: &BytesMut) -> (n: usize)
    ensures
        n == contents(*buf).len(),
{
    buf.len()
}

/// Indexing a `BytesMut` through its `Deref` to a slice: the byte at `at`.
#[verifier::external_body]
pub(crate) fn byte_at(buf: &BytesMut, at: usize) -> (byte: u8)
    requires
        at < contents(*buf).len(),
    ensures
        byte == contents(*buf)[at as int],
{
    buf[at]
}

/// `BigEndian::read_u16` on the buffer from `at` on: the number that the two
/// bytes there spell.
#[verifier::external_body]
pub(crate) fn read_u16_at(buf: &BytesMut, at: usize) -> (value: u16)
    requires
        at + 2 <= contents(*buf).len(),
    ensures
        value as nat == be_value(contents(*buf).subrange(at as int, at + 2)),
{
    BigEndian::read_u16(&buf[at..])
}

/// `BigEndian::read_u32` on the buffer from `at` on: the number that the four
/// bytes there spell.
#[verifier::external_body]
pub(crate) fn read_u32_at(buf: &BytesMut, at: usize) -> (value: u32)
    requires
        at + 4 <= contents(*buf).len(),
    ensures
        value as nat == be_value(contents(*buf).subrange(at as int, at + 4)),
{
    BigEndian::read_u32(&buf[at..])
}

/// `BigEndian::read_u64` on the buffer from `at` on: the number that the
/// eight bytes there spell.
#[verifier::external_body]
pub(crate) fn read_u64_at(buf: &BytesMut, at: usize) -> (value: u64)
    requires
        at + 8 <= contents(*buf).len(),
    ensures
        value as nat == be_value(contents(*buf).subrange(at as int, at + 8)),
{
    BigEndian::read_u64(&buf[at..])
}

/// `BytesMut::split_to`: the first `at` bytes leave the buffer and are handed
/// out, copied into a vector; the others stay, in their order.
#[verifier::external_body]
pub(crate) fn split_front(buf: &mut BytesMut, at: usize) -> (front: Vec<u8>)
    requires
        at <= contents(*old(buf)).len(),
    ensures
        front@ == contents(*old(buf)).subrange(0, at as int),
        contents(*final(buf)) == contents(*old(buf)).skip(at as int),
{
    buf.split_to(at).to_vec()
}

/// `BytesMut::reserve`: room is made, and the bytes held stay as they are.
#[verifier::external_body]
pub(crate) fn reserve(buf: &mut BytesMut, additional: usize)
    requires
        contents(*old(buf)).len() + additional <= isize::MAX,
    ensures
        contents(*final(buf)) == contents(*old(buf)),
{
    buf.reserve(additional)
}

/// `BytesMut::extend_from_slice`: the bytes of `src` are added at the back.
#[verifier::external_body]
pub(crate) fn append(buf: &mut BytesMut, src: &[u8])
    requires
        contents(*old(buf)).len() + src@.len() <= isize::MAX,
    ensures
        contents(*final(buf)) == contents(*old(buf)) + src@,
{
    buf.extend_from_slice(src)
}

/// `BigEndian::write_u16`: the two bytes of `value`.
#[verifier::external_body]
pub(crate) fn u16_bytes(value: u16) -> (bytes: Vec<u8>)
    ensures
        bytes@ == be_bytes(value as nat, 2),
{
    let mut out = vec![0u8; 2];
    BigEndian::write_u16(&mut out, value);
    out
}

/// `BigEndian::write_u32`: the four bytes of `value`.
#[verifier::external_body]
pub(crate) fn u32_bytes(value: u32) -> (bytes: Vec<u8>)
    ensures
        bytes@ == be_bytes(value as nat, 4),
{
    let mut out = vec![0u8; 4];
    BigEndian::write_u32(&mut out, value);
    out
}

/// `BigEndian::write_u64`: the eight bytes of `value`.
#[verifier::external_body]
pub(crate) fn u64_bytes(value: u64) -> (bytes: Vec<u8>)
    ensures
        bytes@ == be_bytes(value as nat, 8),
{
    let mut out = vec![0u8; 8];
    BigEndian::write_u64(&mut out, value);
    out
}

} // verus!
