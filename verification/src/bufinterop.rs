//! Interop with the generic contiguous byte buffer type `bytes::Bytes`.
//!
//! A `Bytes` buffer is opaque here; `bytes_content` names the byte sequence
//! it holds, and the wrappers below carry values across the boundary.

use vstd::prelude::*;

use bytes::Bytes;

verus! {

/// `bytes::Bytes` appears in signatures, so the type is declared here.
#[verifier::external_type_specification]
#[verifier::external_body]
pub struct ExBytes(Bytes);

/// The byte sequence that a `Bytes` buffer holds.
pub uninterp spec fn bytes_content(b: Bytes) -> Seq<u8>;

/// Relies on `<[u8]>::to_vec` reached through `Bytes`'s `Deref` to `[u8]`:
/// copies the buffer's contents out.
#[verifier::external_body]
pub(crate) fn bytes_to_vec(b: &Bytes) -> (r: Vec<u8>)
    ensures
        r@ == bytes_content(*b),
{
    b.to_vec()
}

/// Relies on `From<Vec<u8>> for Bytes`: the buffer takes over the vector's
/// contents unchanged.
#[verifier::external_body]
pub(crate) fn bytes_from_vec(v: Vec<u8>) -> (r: Bytes)
    ensures
        bytes_content(r) == v@,
{
    Bytes::from(v)
}

/// Relies on `Bytes::copy_from_slice`: the buffer is a copy of the slice.
#[verifier::external_body]
pub(crate) fn bytes_copy_from_slice(s: &[u8]) -> (r: Bytes)
    ensures
        bytes_content(r) == s@,
{
    Bytes::copy_from_slice(s)
}

} // verus!
