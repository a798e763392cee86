//! Domain-separated hashing.
use vstd::prelude::*;
use vstd::string::StringSliceAdditionalSpecFns;

use crate::bytes;

verus! {

/// What `blake3::hash` returns for `input`.
pub uninterp spec fn blake3_hash(input: Seq<u8>) -> Seq<u8>;

/// The first 64 bytes that `blake3::Hasher::finalize_xof` supplies for `input`.
pub uninterp spec fn blake3_wide(input: Seq<u8>) -> Seq<u8>;

/// Calls `blake3::hash`: the digest is a function of the input alone.
#[verifier::external_body]
pub(crate) fn digest(input: &[u8]) -> (r: [u8; 32])
    ensures
        r@ == blake3_hash(input@),
{
    *blake3::hash(input).as_bytes()
}

/// Calls `blake3::Hasher::finalize_xof` and fills 64 bytes from it: they are a
/// function of the input alone.
#[verifier::external_body]
fn wide_digest(input: &[u8]) -> (r: [u8; 64])
    ensures
        r@ == blake3_wide(input@),
{
    let mut wide = [0u8; 64];
    blake3::Hasher::new().update(input).finalize_xof().fill(&mut wide);
    wide
}

/// The hash of `domain` followed by all of `parts`.
pub fn blake3_32(domain: &[u8], parts: &[&[u8]]) -> (r: [u8; 32])
    ensures
        r@ == blake3_hash(domain@ + bytes::joined(parts@)),
{
    let all = bytes::join_after(domain, parts);
    digest(all.as_slice())
}

/// The 64-byte hash of `domain` followed by all of `parts`.
pub fn blake3_xof_64(domain: &[u8], parts: &[&[u8]]) -> (r: [u8; 64])
    ensures
        r@ == blake3_wide(domain@ + bytes::joined(parts@)),
{
    let all = bytes::join_after(domain, parts);
    wide_digest(all.as_slice())
}

/// The hash of one message under a textual domain.
pub open spec fn tagged(domain: Seq<u8>, message: Seq<u8>) -> Seq<u8> {
    blake3_hash(domain + message)
}

/// The hash of `domain` followed by `message`.
pub fn hash_tagged(domain: &str, message: &[u8]) -> (r: [u8; 32])
    ensures
        r@ == tagged(domain.spec_bytes(), message@),
{
    let all = bytes::cat2(domain.as_bytes(), message);
    digest(all.as_slice())
}

/// The 64-byte hash of `domain` followed by `message`.
pub fn wide_hash(domain: &[u8], message: &[u8]) -> (r: [u8; 64])
    ensures
        r@ == blake3_wide(domain@ + message@),
{
    let all = bytes::cat2(domain, message);
    wide_digest(all.as_slice())
}

} // verus!
