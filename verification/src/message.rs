//! The buffer type of one framed event, and what is taken on trust about it.
//!
//! A message is a `bytes::Bytes`: immutable, and shared by reference count, so that
//! one encoded event can sit in the queues of many subscribers without being copied.

use bytes::Bytes;
use vstd::prelude::*;

verus! {

#[verifier::external_type_specification]
#[verifier::external_body]
pub struct ExBytes(bytes::Bytes);

/// The byte sequence that a buffer holds.
pub uninterp spec fn contents(buffer: Bytes) -> Seq<u8>;

/// Calls `Bytes::from(Vec<u8>)`, which takes over the vector's allocation.
/// Trusted: the buffer holds exactly the bytes of the vector, in order.
#[verifier::external_body]
pub(crate) fn freeze(bytes: Vec<u8>) -> (buffer: Bytes)
    ensures
        contents(buffer) == bytes@,
{
    Bytes::from(bytes)
}

/// Calls `Bytes::as_ref`, which lends the buffer as a slice.
/// Trusted: the slice holds exactly the bytes of the buffer, in order.
#[verifier::external_body]
pub(crate) fn as_slice(buffer: &Bytes) -> (slice: &[u8])
    ensures
        slice@ == contents(*buffer),
{
    buffer.as_ref()
}

/// Calls `Bytes::clone`, which hands out a second handle to the same memory.
/// Trusted: the new handle holds the same bytes as the one it was made from.
#[verifier::external_body]
pub(crate) fn share(buffer: &Bytes) -> (handle: Bytes)
    ensures
        contents(handle) == contents(*buffer),
{
    buffer.clone()
}

} // verus!
