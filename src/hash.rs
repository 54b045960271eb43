//! The hashing capability and the domain-separation primitive.
use crate::digest::{append_digest, sha3, sha3_256};
use vstd::prelude::*;
use vstd::utf8::encode_utf8;

verus! {

/// A value with a canonical 32-byte digest.
pub trait Hashable {
    /// The canonical digest of this value, as a byte sequence.
    spec fn canonical(&self) -> Seq<u8>;

    /// Computes the canonical digest.
    fn hash(&self) -> (r: [u8; 32])
        ensures
            r@ == self.canonical(),
    ;
}

/// The digest of a label: SHA3-256 of its UTF-8 bytes, with no tag.
pub open spec fn label_digest(label: Seq<char>) -> Seq<u8> {
    sha3_256(encode_utf8(label))
}

/// The "label-then-content" composition: the digest of the label's digest
/// followed by the content.
pub open spec fn framed(label: Seq<char>, content: Seq<u8>) -> Seq<u8> {
    sha3_256(label_digest(label) + content)
}

/// Digests the UTF-8 bytes of `label`.
pub fn prefix(label: &str) -> (r: [u8; 32])
    ensures
        r@ == label_digest(label@),
{
    sha3(label.as_bytes())
}

/// Digests the label's digest followed by `content`.
pub fn hash_framed(label: &str, content: &[u8]) -> (r: [u8; 32])
    ensures
        r@ == framed(label@, content@),
{
    let mut buf: Vec<u8> = Vec::new();
    let p = prefix(label);
    append_digest(&mut buf, &p);
    let mut i: usize = 0;
    while i < content.len()
        invariant
            0 <= i <= content@.len(),
            buf@ == p@ + content@.subrange(0, i as int),
        decreases content@.len() - i,
    {
        buf.push(content[i]);
        i = i + 1;
        assert(buf@ =~= p@ + content@.subrange(0, i as int));
    }
    assert(content@.subrange(0, content@.len() as int) =~= content@);
    sha3(buf.as_slice())
}

/// Digests the label's digest followed by one 32-byte digest.
pub fn hash_framed_digest(label: &str, content: &[u8; 32]) -> (r: [u8; 32])
    ensures
        r@ == framed(label@, content@),
{
    let mut buf: Vec<u8> = Vec::new();
    let p = prefix(label);
    append_digest(&mut buf, &p);
    append_digest(&mut buf, content);
    assert(buf@ =~= p@ + content@);
    sha3(buf.as_slice())
}

/// Digests the label's digest followed by two 32-byte digests.
pub fn hash_framed_pair(label: &str, first: &[u8; 32], second: &[u8; 32]) -> (r: [u8; 32])
    ensures
        r@ == framed(label@, first@ + second@),
{
    let mut buf: Vec<u8> = Vec::new();
    let p = prefix(label);
    append_digest(&mut buf, &p);
    append_digest(&mut buf, first);
    append_digest(&mut buf, second);
    assert(buf@ =~= p@ + (first@ + second@));
    sha3(buf.as_slice())
}

/// Determinism: any two digests that `hash` returns for one value are the
/// same bytes, since each is the value's canonical digest.
pub proof fn law_hash_deterministic<T: Hashable>(v: &T, r1: [u8; 32], r2: [u8; 32])
    requires
        r1@ == v.canonical(),
        r2@ == v.canonical(),
    ensures
        r1@ == r2@,
{
}

} // verus!
