//! Hashing rules for containers: sequences, optional values, results and pairs.
use crate::digest::{append_digest, sha3, sha3_256, zero_block, zero_digest};
use crate::hash::{framed, hash_framed, hash_framed_digest, hash_framed_pair, label_digest, prefix, Hashable};
use vstd::prelude::*;

verus! {

/// The digests of the items of `s`, concatenated in order.
pub open spec fn digests_concat<T: Hashable>(s: Seq<T>) -> Seq<u8>
    decreases s.len(),
{
    if s.len() == 0 {
        Seq::empty()
    } else {
        digests_concat(s.drop_last()) + s.last().canonical()
    }
}

/// The content of a sequence: 32 zero bytes when empty, else its items' digests.
pub open spec fn list_content<T: Hashable>(s: Seq<T>) -> Seq<u8> {
    if s.len() == 0 {
        zero_block()
    } else {
        digests_concat(s)
    }
}

/// The digest of an ordered sequence.
pub open spec fn list_digest<T: Hashable>(s: Seq<T>) -> Seq<u8> {
    framed("list"@, list_content(s))
}

/// Hashes an ordered sequence, keeping its order.
pub fn hash_slice<T: Hashable>(s: &[T]) -> (r: [u8; 32])
    ensures
        r@ == list_digest(s@),
{
    let mut buf: Vec<u8> = Vec::new();
    let mut i: usize = 0;
    while i < s.len()
        invariant
            0 <= i <= s@.len(),
            buf@ == digests_concat(s@.subrange(0, i as int)),
        decreases s@.len() - i,
    {
        let d = s[i].hash();
        append_digest(&mut buf, &d);
        i = i + 1;
        assert(s@.subrange(0, i as int).drop_last() =~= s@.subrange(0, i - 1));
    }
    assert(s@.subrange(0, s@.len() as int) =~= s@);
    if s.len() == 0 {
        let z = zero_digest();
        hash_framed_digest("list", &z)
    } else {
        hash_framed("list", buf.as_slice())
    }
}

impl<T: Hashable> Hashable for Vec<T> {
    open spec fn canonical(&self) -> Seq<u8> {
        list_digest(self@)
    }

    fn hash(&self) -> (r: [u8; 32]) {
        hash_slice(self.as_slice())
    }
}

/// The content of an optional value: 32 zero bytes when absent, else the
/// digest of the element's digest.
pub open spec fn optional_content<A: Hashable>(o: Option<A>) -> Seq<u8> {
    match o {
        None => zero_block(),
        Some(a) => sha3_256(a.canonical()),
    }
}

impl<A: Hashable> Hashable for Option<A> {
    open spec fn canonical(&self) -> Seq<u8> {
        framed("optional"@, optional_content(*self))
    }

    fn hash(&self) -> (r: [u8; 32]) {
        let content = match self {
            None => zero_digest(),
            Some(a) => {
                let d = a.hash();
                sha3(&d)
            },
        };
        hash_framed_digest("optional", &content)
    }
}

/// The content of a result: the digest of the side's tag digest followed by
/// the held value's digest.
pub open spec fn result_content<A: Hashable, B: Hashable>(r: Result<A, B>) -> Seq<u8> {
    match r {
        Ok(a) => sha3_256(label_digest("ok"@) + a.canonical()),
        Err(e) => sha3_256(label_digest("err"@) + e.canonical()),
    }
}

impl<A: Hashable, B: Hashable> Hashable for Result<A, B> {
    open spec fn canonical(&self) -> Seq<u8> {
        framed("result"@, result_content(*self))
    }

    fn hash(&self) -> (r: [u8; 32]) {
        let mut buf: Vec<u8> = Vec::new();
        match self {
            Ok(a) => {
                let p = prefix("ok");
                let d = a.hash();
                append_digest(&mut buf, &p);
                append_digest(&mut buf, &d);
            },
            Err(e) => {
                let p = prefix("err");
                let d = e.hash();
                append_digest(&mut buf, &p);
                append_digest(&mut buf, &d);
            },
        }
        let content = sha3(buf.as_slice());
        hash_framed_digest("result", &content)
    }
}

/// The digest of a pair: both digests, in position order, framed by "tuple".
pub open spec fn pair_digest(first: Seq<u8>, second: Seq<u8>) -> Seq<u8> {
    framed("tuple"@, first + second)
}

impl<A: Hashable, B: Hashable> Hashable for (A, B) {
    open spec fn canonical(&self) -> Seq<u8> {
        pair_digest(self.0.canonical(), self.1.canonical())
    }

    fn hash(&self) -> (r: [u8; 32]) {
        let a = self.0.hash();
        let b = self.1.hash();
        hash_framed_pair("tuple", &a, &b)
    }
}

} // verus!
