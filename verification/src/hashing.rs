//! Content fingerprints.

use vstd::prelude::*;

verus! {

/// The 32-byte BLAKE3 digest of `data`. This names what `blake3::hash`
/// returns for the bytes.
pub uninterp spec fn blake3_digest(data: Seq<u8>) -> Seq<u8>;

/// Hashes the contents of a file.
///
/// Trusted: calls `blake3::hash` and copies the bytes that
/// `blake3::Hash::as_bytes` shows. The contract only gives the digest its
/// name: it is a function of the input bytes alone.
#[verifier::external_body]
pub(crate) fn blake3_hash(data: &[u8]) -> (r: [u8; 32])
    ensures
        r@ == blake3_digest(data@),
{
    *blake3::hash(data).as_bytes()
}

/// Whether two fingerprints are the same.
pub fn hash_equal(a: &[u8; 32], b: &[u8; 32]) -> (r: bool)
    ensures
        r == (*a == *b),
{
    let mut i: usize = 0;
    while i < 32
        invariant
            i <= 32,
            forall|k: int| 0 <= k < i ==> a[k] == b[k],
        decreases 32 - i,
    {
        if a[i] != b[i] {
            return false;
        }
        i += 1;
    }
    assert(*a =~= *b);
    true
}

} // verus!
