//! The hash by which torrents and pieces are identified.

use sha1::Digest;
use vstd::prelude::*;

use crate::block::Sha1Hash;

verus! {

/// The SHA-1 digest of the bytes.
pub uninterp spec fn sha1(bytes: Seq<u8>) -> Seq<u8>;

/// The `sha1` function `Sha1::digest` gives the SHA-1 digest of the bytes, which
/// depends on nothing else and is 20 bytes long.
#[verifier::external_body]
pub(crate) fn sha1_digest(bytes: &[u8]) -> (hash: Sha1Hash)
    ensures
        hash@ == sha1(bytes@),
{
    sha1::Sha1::digest(bytes).into()
}

/// Tells whether two hashes are equal.
pub fn hashes_equal(a: &Sha1Hash, b: &Sha1Hash) -> (r: bool)
    ensures
        r == (a@ == b@),
{
    let mut i: usize = 0;
    while i < 20
        invariant
            i <= 20,
            forall|j: int| 0 <= j < i ==> a@[j] == b@[j],
        decreases 20 - i,
    {
        if a[i] != b[i] {
            assert(a@[i as int] != b@[i as int]);
            return false;
        }
        i = i + 1;
    }
    assert(a@ =~= b@);
    true
}

} // verus!
