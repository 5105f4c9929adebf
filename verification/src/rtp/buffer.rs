//! What the packet parser takes from the `bytes` crate.

use bytes::{Buf, Bytes};
use vstd::prelude::*;

verus! {

/// `bytes::Bytes`, a cheaply splittable byte buffer that is read from the front.
#[verifier::external_type_specification]
#[verifier::external_body]
pub struct ExBytes(Bytes);

/// The bytes that a buffer still holds, front first.
pub uninterp spec fn contents(buffer: Bytes) -> Seq<u8>;

/// The two bytes of `s` from index `i` on, most significant first.
pub open spec fn be16(s: Seq<u8>, i: int) -> int {
    s[i] * 256 + s[i + 1]
}

/// The four bytes of `s` from index `i` on, most significant first.
pub open spec fn be32(s: Seq<u8>, i: int) -> int {
    be16(s, i) * 65536 + be16(s, i + 2)
}

/// `Bytes::copy_from_slice`: a new buffer that holds a copy of the slice.
#[verifier::external_body]
pub(crate) fn copy_from_slice(data: &[u8]) -> (r: Bytes)
    ensures
        contents(r) == data@,
{
    Bytes::copy_from_slice(data)
}

/// `Bytes::len`: the number of bytes that the buffer holds.
#[verifier::external_body]
pub(crate) fn len(buffer: &Bytes) -> (r: usize)
    ensures
        r == contents(*buffer).len(),
{
    buffer.len()
}

/// `<[u8]>::last` through `Bytes::deref`: the last byte that the buffer holds, if it holds any.
#[verifier::external_body]
pub(crate) fn last(buffer: &Bytes) -> (r: Option<u8>)
    ensures
        r == (if contents(*buffer).len() == 0 {
            None
        } else {
            Some(contents(*buffer).last())
        }),
{
    buffer.last().copied()
}

/// `Buf::get_u8` on `Bytes`: takes one byte off the front. The outside function panics on an
/// empty buffer.
#[verifier::external_body]
pub(crate) fn get_u8(buffer: &mut Bytes) -> (r: u8)
    requires
        contents(*old(buffer)).len() >= 1,
    ensures
        r == contents(*old(buffer))[0],
        contents(*final(buffer)) == contents(*old(buffer)).skip(1),
{
    buffer.get_u8()
}

/// `Buf::get_u16` on `Bytes`: takes two bytes off the front and reads them as a big-endian
/// integer. The outside function panics on a shorter buffer.
#[verifier::external_body]
pub(crate) fn get_u16(buffer: &mut Bytes) -> (r: u16)
    requires
        contents(*old(buffer)).len() >= 2,
    ensures
        r == be16(contents(*old(buffer)), 0),
        contents(*final(buffer)) == contents(*old(buffer)).skip(2),
{
    buffer.get_u16()
}

/// `Buf::get_u32` on `Bytes`: takes four bytes off the front and reads them as a big-endian
/// integer. The outside function panics on a shorter buffer.
#[verifier::external_body]
pub(crate) fn get_u32(buffer: &mut Bytes) -> (r: u32)
    requires
        contents(*old(buffer)).len() >= 4,
    ensures
        r == be32(contents(*old(buffer)), 0),
        contents(*final(buffer)) == contents(*old(buffer)).skip(4),
{
    buffer.get_u32()
}

/// `Bytes::split_to`: takes the first `at` bytes off the front and returns them as a buffer of
/// their own. The outside function panics where fewer are left.
#[verifier::external_body]
pub(crate) fn split_to(buffer: &mut Bytes, at: usize) -> (r: Bytes)
    requires
        at <= contents(*old(buffer)).len(),
    ensures
        contents(r) == contents(*old(buffer)).take(at as int),
        contents(*final(buffer)) == contents(*old(buffer)).skip(at as int),
{
    buffer.split_to(at)
}

} // verus!
