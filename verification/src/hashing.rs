//! SHA-256 digests, computed by the `commonware-cryptography` hasher.

use commonware_cryptography::{Hasher, Sha256};
use vstd::prelude::*;

verus! {

/// The SHA-256 digest of `data`, as the outside hasher computes it.
pub uninterp spec fn sha256_of(data: Seq<u8>) -> Seq<u8>;

/// Hashes `data` with a fresh `commonware_cryptography::Sha256`: one
/// `Hasher::update` with the whole input, then `Hasher::finalize`, whose
/// digest is returned as its 32 bytes.
///
/// Trusted: the result is `sha256_of(data)`, a function of the bytes alone;
/// the hasher starts from its default state, so nothing else enters it.
/// Nothing more about the value (that it is SHA-256) is stated.
#[verifier::external_body]
pub(crate) fn sha256(data: &[u8]) -> (digest: [u8; 32])
    ensures
        digest@ == sha256_of(data@),
{
    let mut hasher = Sha256::default();
    hasher.update(data);
    let (_, digest) = hasher.finalize();
    digest.0
}

/// Compares two digests byte by byte.
pub fn digests_equal(a: &[u8; 32], b: &[u8; 32]) -> (equal: bool)
    ensures
        equal == (a@ == b@),
{
    for i in 0..32
        invariant
            forall|k: int| 0 <= k < i ==> a@[k] == b@[k],
    {
        if a[i] != b[i] {
            return false;
        }
    }
    assert(a@ =~= b@);
    true
}

} // verus!
