//! The growable byte buffer of the `bytes` crate, and what is relied on of it.

use bytes::{Buf, BytesMut};
use vstd::prelude::*;

verus! {

/// The byte buffer that [`bytes::BytesMut`] is.
#[verifier::external_type_specification]
#[verifier::external_body]
pub struct ExBytesMut(bytes::BytesMut);

/// The bytes that a buffer holds, first to last.
pub uninterp spec fn held(buffer: BytesMut) -> Seq<u8>;

/// `BytesMut::new` gives a buffer without bytes.
pub assume_specification[ BytesMut::new ]() -> (buffer: BytesMut)
    ensures
        held(buffer) == Seq::<u8>::empty(),
;

/// `BytesMut::with_capacity` gives a buffer without bytes. It panics where no
/// allocation can be that large.
pub assume_specification[ BytesMut::with_capacity ](capacity: usize) -> (buffer: BytesMut)
    requires
        capacity <= isize::MAX,
    ensures
        held(buffer) == Seq::<u8>::empty(),
;

/// `BytesMut::len` counts the bytes held.
pub assume_specification[ BytesMut::len ](buffer: &BytesMut) -> (len: usize)
    ensures
        len == held(*buffer).len(),
;

/// `BytesMut::capacity` says how many bytes the buffer can hold before it has to
/// allocate. The allocator decides on the number; it is never below the number
/// of bytes held.
pub assume_specification[ BytesMut::capacity ](buffer: &BytesMut) -> (capacity: usize)
    ensures
        capacity >= held(*buffer).len(),
;

/// `BytesMut::try_reclaim` makes room for `additional` more bytes out of what was
/// held and taken before, without allocating. The bytes held stay as they are.
/// Whether it comes to that depends on the allocation, and is not stated.
pub assume_specification[ BytesMut::try_reclaim ](buffer: &mut BytesMut, additional: usize) -> (
    reclaimed: bool)
    ensures
        held(*final(buffer)) == held(*old(buffer)),
;

/// `BytesMut::extend_from_slice` appends. It panics where no allocation can be
/// that large.
pub assume_specification[ BytesMut::extend_from_slice ](buffer: &mut BytesMut, bytes: &[u8])
    requires
        held(*old(buffer)).len() + bytes@.len() <= isize::MAX,
    ensures
        held(*final(buffer)) == held(*old(buffer)) + bytes@,
;

/// `BytesMut::split_to` cuts the first `at` bytes off and returns them. It panics
/// where there are fewer.
pub assume_specification[ BytesMut::split_to ](buffer: &mut BytesMut, at: usize) -> (front: BytesMut)
    requires
        at <= held(*old(buffer)).len(),
    ensures
        held(front) == held(*old(buffer)).take(at as int),
        held(*final(buffer)) == held(*old(buffer)).skip(at as int),
;

/// `Buf::advance` of a `BytesMut` drops the first `count` bytes. It panics where
/// there are fewer.
#[verifier::external_body]
pub(crate) fn advance(buffer: &mut BytesMut, count: usize)
    requires
        count <= held(*old(buffer)).len(),
    ensures
        held(*final(buffer)) == held(*old(buffer)).skip(count as int),
{
    buffer.advance(count)
}

/// `Deref` of a `BytesMut`: the bytes held, as a slice.
#[verifier::external_body]
pub(crate) fn as_slice(buffer: &BytesMut) -> (bytes: &[u8])
    ensures
        bytes@ == held(*buffer),
{
    buffer
}

/// `BytesMut::freeze`, and a copy of the bytes that it hands over.
#[verifier::external_body]
pub(crate) fn into_vec(buffer: BytesMut) -> (bytes: Vec<u8>)
    ensures
        bytes@ == held(buffer),
{
    buffer.freeze().to_vec()
}

/// `BytesMut::from_iter`: a buffer that holds the bytes of `bytes`.
#[verifier::external_body]
pub(crate) fn from_vec(bytes: Vec<u8>) -> (buffer: BytesMut)
    ensures
        held(buffer) == bytes@,
{
    BytesMut::from_iter(bytes)
}

} // verus!
