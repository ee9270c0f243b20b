//! Shared strings of bytes.

use bytes::Bytes;
use vstd::prelude::*;

verus! {

/// The type `bytes::Bytes`: a shared, immutable string of bytes.
#[verifier::external_type_specification]
#[verifier::external_body]
pub struct ExBytes(bytes::Bytes);

/// The bytes that a `bytes::Bytes` holds.
pub uninterp spec fn bytes_content(b: bytes::Bytes) -> Seq<u8>;

/// `bytes::Bytes::len` returns how many bytes the string holds.
#[verifier::external_body]
pub(crate) fn bytes_len(b: &Bytes) -> (r: usize)
    ensures
        r == bytes_content(*b).len(),
{
    b.len()
}

/// `bytes::Bytes::slice` returns the bytes from `begin` up to `end`. It panics
/// unless `begin <= end` and `end` is at most the length.
#[verifier::external_body]
pub(crate) fn bytes_slice(b: &Bytes, begin: usize, end: usize) -> (r: Bytes)
    requires
        begin <= end <= bytes_content(*b).len(),
    ensures
        bytes_content(r) == bytes_content(*b).subrange(begin as int, end as int),
{
    b.slice(begin..end)
}

/// `Clone::clone` of `bytes::Bytes` returns a string with the same bytes.
#[verifier::external_body]
pub(crate) fn bytes_clone(b: &Bytes) -> (r: Bytes)
    ensures
        bytes_content(r) == bytes_content(*b),
{
    b.clone()
}

/// `Bytes::from` of a string gives the bytes of its UTF-8 encoding.
#[verifier::external_body]
pub(crate) fn bytes_from_string(s: String) -> (r: Bytes)
    ensures
        bytes_content(r) == vstd::utf8::encode_utf8(s@),
{
    Bytes::from(s)
}

} // verus!
