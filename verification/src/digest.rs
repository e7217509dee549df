//! SHA-1 digests, computed by the `sha1` crate.

use sha1::Digest;
use vstd::prelude::*;

verus! {

/// The SHA-1 digest of `data`, as the `sha1` crate computes it.
pub uninterp spec fn sha1_digest(data: Seq<u8>) -> Seq<u8>;

/// `Sha1::digest`: hashes `data` in one call and returns the 160-bit
/// digest, which is twenty bytes long and depends on `data` alone.
#[verifier::external_body]
pub(crate) fn sha1(data: &[u8]) -> (digest: Vec<u8>)
    ensures
        digest@ == sha1_digest(data@),
        digest@.len() == 20,
{
    sha1::Sha1::digest(data).to_vec()
}

} // verus!
