//! Hashing rules for scalars: integers, booleans, strings, identifiers, timestamps.
use crate::digest::{sha3, sha3_256};
use crate::hash::{framed, hash_framed_digest, Hashable};
use vstd::prelude::*;
use vstd::utf8::encode_utf8;

verus! {

/// The `n` low-order bytes of `x`, most significant first.
pub open spec fn be_bytes(x: nat, n: nat) -> Seq<u8>
    decreases n,
{
    if n == 0 {
        Seq::empty()
    } else {
        be_bytes(x / 256, (n - 1) as nat).push((x % 256) as u8)
    }
}

/// The digest of an integer of `n` bytes: its big-endian bytes, untagged.
pub open spec fn int_digest(x: nat, n: nat) -> Seq<u8> {
    sha3_256(be_bytes(x, n))
}

/// The `n` low-order bytes of `x`, most significant first.
pub fn to_be_bytes(x: u128, n: usize) -> (r: Vec<u8>)
    ensures
        r@ == be_bytes(x as nat, n as nat),
    decreases n,
{
    if n == 0 {
        Vec::new()
    } else {
        let mut r = to_be_bytes(x / 256, n - 1);
        r.push((x % 256) as u8);
        r
    }
}

/// Digests the `n` low-order bytes of `x`, most significant first.
fn hash_int(x: u128, n: usize) -> (r: [u8; 32])
    ensures
        r@ == int_digest(x as nat, n as nat),
{
    let b = to_be_bytes(x, n);
    sha3(b.as_slice())
}

impl Hashable for u8 {
    open spec fn canonical(&self) -> Seq<u8> {
        int_digest(*self as nat, 1)
    }

    fn hash(&self) -> (r: [u8; 32]) {
        hash_int(*self as u128, 1)
    }
}

impl Hashable for u16 {
    open spec fn canonical(&self) -> Seq<u8> {
        int_digest(*self as nat, 2)
    }

    fn hash(&self) -> (r: [u8; 32]) {
        hash_int(*self as u128, 2)
    }
}

impl Hashable for u32 {
    open spec fn canonical(&self) -> Seq<u8> {
        int_digest(*self as nat, 4)
    }

    fn hash(&self) -> (r: [u8; 32]) {
        hash_int(*self as u128, 4)
    }
}

impl Hashable for u64 {
    open spec fn canonical(&self) -> Seq<u8> {
        int_digest(*self as nat, 8)
    }

    fn hash(&self) -> (r: [u8; 32]) {
        hash_int(*self as u128, 8)
    }
}

impl Hashable for u128 {
    open spec fn canonical(&self) -> Seq<u8> {
        int_digest(*self as nat, 16)
    }

    fn hash(&self) -> (r: [u8; 32]) {
        hash_int(*self, 16)
    }
}

// A signed integer hashes its two's-complement bytes, which are those of the
// unsigned integer of the same width with the same bits.
impl Hashable for i8 {
    open spec fn canonical(&self) -> Seq<u8> {
        int_digest((*self as u8) as nat, 1)
    }

    fn hash(&self) -> (r: [u8; 32]) {
        hash_int((*self as u8) as u128, 1)
    }
}

impl Hashable for i16 {
    open spec fn canonical(&self) -> Seq<u8> {
        int_digest((*self as u16) as nat, 2)
    }

    fn hash(&self) -> (r: [u8; 32]) {
        hash_int((*self as u16) as u128, 2)
    }
}

impl Hashable for i32 {
    open spec fn canonical(&self) -> Seq<u8> {
        int_digest((*self as u32) as nat, 4)
    }

    fn hash(&self) -> (r: [u8; 32]) {
        hash_int((*self as u32) as u128, 4)
    }
}

impl Hashable for i64 {
    open spec fn canonical(&self) -> Seq<u8> {
        int_digest((*self as u64) as nat, 8)
    }

    fn hash(&self) -> (r: [u8; 32]) {
        hash_int((*self as u64) as u128, 8)
    }
}

impl Hashable for i128 {
    open spec fn canonical(&self) -> Seq<u8> {
        int_digest((*self as u128) as nat, 16)
    }

    fn hash(&self) -> (r: [u8; 32]) {
        hash_int(*self as u128, 16)
    }
}

/// The digest of a boolean: one byte, 1 for true and 0 for false.
pub open spec fn bool_digest(b: bool) -> Seq<u8> {
    sha3_256(seq![if b { 1u8 } else { 0u8 }])
}

impl Hashable for bool {
    open spec fn canonical(&self) -> Seq<u8> {
        bool_digest(*self)
    }

    fn hash(&self) -> (r: [u8; 32]) {
        let b: [u8; 1] = if *self { [1u8] } else { [0u8] };
        assert(b@ =~= seq![if *self { 1u8 } else { 0u8 }]);
        sha3(&b)
    }
}

/// The digest of a string given by its UTF-8 bytes: the bytes digested,
/// then framed by "string".
pub open spec fn utf8_str_digest(b: Seq<u8>) -> Seq<u8> {
    framed("string"@, sha3_256(b))
}

/// The digest of a string.
pub open spec fn str_digest(s: Seq<char>) -> Seq<u8> {
    utf8_str_digest(encode_utf8(s))
}

/// Hashes a string given by its UTF-8 bytes.
pub fn hash_utf8_str(b: &[u8]) -> (r: [u8; 32])
    ensures
        r@ == utf8_str_digest(b@),
{
    let inner = sha3(b);
    hash_framed_digest("string", &inner)
}

/// Hashes a string slice.
pub fn hash_str(s: &str) -> (r: [u8; 32])
    ensures
        r@ == str_digest(s@),
{
    hash_utf8_str(s.as_bytes())
}

impl Hashable for String {
    open spec fn canonical(&self) -> Seq<u8> {
        str_digest(self@)
    }

    fn hash(&self) -> (r: [u8; 32]) {
        hash_str(self.as_str())
    }
}

/// A 128-bit identifier, held as its sixteen bytes.
pub struct Uuid {
    pub bytes: [u8; 16],
}

impl Hashable for Uuid {
    /// An identifier digests its raw bytes, untagged.
    open spec fn canonical(&self) -> Seq<u8> {
        sha3_256(self.bytes@)
    }

    fn hash(&self) -> (r: [u8; 32]) {
        sha3(&self.bytes)
    }
}

} // verus!
