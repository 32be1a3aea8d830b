//! Checksums of the binary strategy, computed by the `blake3` crate.
use vstd::prelude::*;

verus! {

/// The 32-byte BLAKE3 digest of `data`.
pub uninterp spec fn blake3_digest(data: Seq<u8>) -> Seq<u8>;

/// Calls `blake3::hash` and returns the bytes of the digest.
///
/// Claimed of the outside function: its result depends on `data` alone
/// (it is the named value `blake3_digest(data)`) and is `blake3::OUT_LEN`,
/// 32, bytes long. Nothing else about BLAKE3 is stated.
#[verifier::external_body]
pub(crate) fn blake3_hash(data: &[u8]) -> (r: Vec<u8>)
    ensures
        r@ == blake3_digest(data@),
        r@.len() == 32,
{
    blake3::hash(data).as_bytes().to_vec()
}

} // verus!
