//! Content hashes.

use vstd::prelude::*;

verus! {

/// The BLAKE3 hash of some bytes.
pub uninterp spec fn blake3_digest(input: Seq<u8>) -> Seq<u8>;

/// The BLAKE3 hash of some bytes, as an array.
pub open spec fn digest_of(input: Seq<u8>) -> [u8; 32] {
    choose|digest: [u8; 32]| digest@ == blake3_digest(input)
}

/// `blake3::hash` and `Hash::as_bytes`: the 32-byte hash of the input, which depends on nothing
/// else.
#[verifier::external_body]
pub(crate) fn blake3_hash(input: &[u8]) -> (r: [u8; 32])
    ensures
        r@ == blake3_digest(input@),
{
    *blake3::hash(input).as_bytes()
}

/// The hash of some bytes.
pub fn content_hash(input: &[u8]) -> (r: [u8; 32])
    ensures
        r@ == blake3_digest(input@),
        r == digest_of(input@),
{
    let r = blake3_hash(input);
    proof {
        let chosen = digest_of(input@);
        assert(chosen@ == r@);
        assert forall|i: int| 0 <= i < 32 implies chosen[i] == r[i] by {
            assert(chosen@[i] == r@[i]);
        }
        assert(chosen =~= r);
    }
    r
}

} // verus!
