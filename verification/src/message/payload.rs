//! Shared, immutable payload bytes.

use bytes::Bytes;
use vstd::prelude::*;

verus! {

/// `bytes::Bytes`, a cheaply cloned slice of a shared allocation.
#[verifier::external_type_specification]
#[verifier::external_body]
pub struct ExBytes(Bytes);

/// The bytes that a `Bytes` holds.
pub uninterp spec fn content(payload: Bytes) -> Seq<u8>;

/// `Bytes::as_ref`: the same bytes as a slice.
#[verifier::external_body]
pub(crate) fn as_slice(payload: &Bytes) -> (bytes: &[u8])
    ensures
        bytes@ == content(*payload),
{
    payload.as_ref()
}

/// `Bytes::len`: how many bytes there are.
#[verifier::external_body]
pub(crate) fn byte_count(payload: &Bytes) -> (length: usize)
    ensures
        length == content(*payload).len(),
{
    payload.len()
}

/// `Bytes::slice`: the bytes from `start` up to `end`, in the same allocation.
#[verifier::external_body]
pub(crate) fn shared_slice(payload: &Bytes, start: usize, end: usize) -> (part: Bytes)
    requires
        start <= end <= content(*payload).len(),
    ensures
        content(part) == content(*payload).subrange(start as int, end as int),
{
    payload.slice(start..end)
}

/// `Bytes::from` a vector: the same bytes, in the allocation of the vector.
#[verifier::external_body]
pub(crate) fn share(bytes: Vec<u8>) -> (payload: Bytes)
    ensures
        content(payload) == bytes@,
{
    Bytes::from(bytes)
}

/// `Bytes::clone`: the same bytes, in the same allocation.
pub assume_specification[ <Bytes as Clone>::clone ](shared: &Bytes) -> (copy: Bytes)
    ensures
        content(copy) == content(*shared),
;

} // verus!
