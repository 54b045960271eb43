//! The digest primitive: SHA3-256 over a byte string.
use tiny_keccak::{Hasher, Sha3};
use vstd::prelude::*;

verus! {

/// The SHA3-256 digest of a byte string.
pub uninterp spec fn sha3_256(data: Seq<u8>) -> Seq<u8>;

/// Thirty-two zero bytes: the content that stands for "nothing".
pub open spec fn zero_block() -> Seq<u8> {
    Seq::new(32, |i: int| 0u8)
}

/// Relies on tiny_keccak's `Sha3::v256`, `Hasher::update` and `Hasher::finalize`:
/// one update with `data`, then the 32-byte SHA3-256 digest written out.
#[verifier::external_body]
pub(crate) fn sha3(data: &[u8]) -> (r: [u8; 32])
    ensures
        r@ == sha3_256(data@),
{
    let mut output = [0u8; 32];
    let mut hasher = Sha3::v256();
    hasher.update(data);
    hasher.finalize(&mut output);
    output
}

/// Appends the 32 bytes of `d` to `buf`.
pub fn append_digest(buf: &mut Vec<u8>, d: &[u8; 32])
    ensures
        final(buf)@ == old(buf)@ + d@,
{
    let ghost start = buf@;
    let mut i: usize = 0;
    while i < 32
        invariant
            0 <= i <= 32,
            d@.len() == 32,
            buf@ == start + d@.subrange(0, i as int),
        decreases 32 - i,
    {
        buf.push(d[i]);
        i = i + 1;
        assert(buf@ =~= start + d@.subrange(0, i as int));
    }
    assert(d@.subrange(0, 32) =~= d@);
}

/// Thirty-two zero bytes.
pub fn zero_digest() -> (r: [u8; 32])
    ensures
        r@ == zero_block(),
{
    let r = [0u8; 32];
    assert(r@ =~= zero_block());
    r
}

} // verus!
