//! Reference-counted byte buffers, as the `bytes` crate provides them.

use bytes::Bytes;
use vstd::prelude::*;

verus! {

/// The `Bytes` buffer of the `bytes` crate.
#[verifier::external_type_specification]
#[verifier::external_body]
pub struct ExBytes(bytes::Bytes);

/// The bytes a buffer holds, in order.
pub uninterp spec fn bytes_view(b: Bytes) -> Seq<u8>;

/// `Bytes::len` is the number of bytes that the buffer holds.
pub assume_specification[ Bytes::len ](b: &Bytes) -> (n: usize)
    ensures
        n == bytes_view(*b).len(),
;

/// Cloning a `Bytes` yields another handle to the same bytes.
pub assume_specification[ <Bytes as Clone>::clone ](b: &Bytes) -> (copy: Bytes)
    ensures
        bytes_view(copy) == bytes_view(*b),
;

/// `Bytes::slice` over `0..end`: the first `end` bytes. The call panics beyond the end of the
/// buffer, which `requires` leaves out.
#[verifier::external_body]
pub(crate) fn prefix(b: &Bytes, end: usize) -> (r: Bytes)
    requires
        end <= bytes_view(*b).len(),
    ensures
        bytes_view(r) == bytes_view(*b).take(end as int),
{
    b.slice(0..end)
}

/// `Bytes::from` on a vector: the buffer holds what the vector held.
#[verifier::external_body]
pub(crate) fn from_vec(v: Vec<u8>) -> (b: Bytes)
    ensures
        bytes_view(b) == v@,
{
    Bytes::from(v)
}

/// `Bytes::as_ref`: a slice over the bytes of the buffer.
#[verifier::external_body]
pub(crate) fn as_slice(b: &Bytes) -> (s: &[u8])
    ensures
        s@ == bytes_view(*b),
{
    b.as_ref()
}

} // verus!
