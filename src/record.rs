//! Composition of record (named-field struct) and unit-enum digests.
use crate::digest::{append_digest, sha3, sha3_256};
use crate::hash::{label_digest, prefix, Hashable};
use vstd::prelude::*;

verus! {

/// One declared field of a record, with the digest of its value.
pub struct FieldHash {
    /// The field's name, which tags its digest.
    pub name: String,
    /// The digest of the field's value: its own hash, or the hash of its
    /// canonical value-tree form.
    pub digest: [u8; 32],
    /// Whether the field is left out of the record's digest.
    pub excluded: bool,
}

/// The digest of one field: its name's digest followed by its value's digest.
pub open spec fn field_digest(name: Seq<char>, value: Seq<u8>) -> Seq<u8> {
    sha3_256(label_digest(name) + value)
}

/// The digests of the fields that are not excluded, in declaration order.
pub open spec fn record_content(fields: Seq<FieldHash>) -> Seq<u8>
    decreases fields.len(),
{
    if fields.len() == 0 {
        Seq::empty()
    } else {
        let f = fields.last();
        let rest = record_content(fields.drop_last());
        if f.excluded {
            rest
        } else {
            rest + field_digest(f.name@, f.digest@)
        }
    }
}

/// The digest of a record: the type name's digest, then each included field's
/// digest in declaration order, digested together.
pub open spec fn record_digest(ty: Seq<char>, fields: Seq<FieldHash>) -> Seq<u8> {
    sha3_256(label_digest(ty) + record_content(fields))
}

/// Hashes one field: its name's digest followed by the value's digest.
pub fn hash_field(name: &str, value: &[u8; 32]) -> (r: [u8; 32])
    ensures
        r@ == field_digest(name@, value@),
{
    let mut buf: Vec<u8> = Vec::new();
    let p = prefix(name);
    append_digest(&mut buf, &p);
    append_digest(&mut buf, value);
    sha3(buf.as_slice())
}

/// Hashes a record from its type name and its fields in declaration order.
pub fn hash_record(ty: &str, fields: &[FieldHash]) -> (r: [u8; 32])
    ensures
        r@ == record_digest(ty@, fields@),
{
    let mut buf: Vec<u8> = Vec::new();
    let p = prefix(ty);
    append_digest(&mut buf, &p);
    let mut i: usize = 0;
    while i < fields.len()
        invariant
            0 <= i <= fields@.len(),
            buf@ == p@ + record_content(fields@.subrange(0, i as int)),
        decreases fields@.len() - i,
    {
        let f = &fields[i];
        proof {
            assert(fields@.subrange(0, i + 1).drop_last() =~= fields@.subrange(0, i as int));
        }
        if !f.excluded {
            let d = hash_field(f.name.as_str(), &f.digest);
            append_digest(&mut buf, &d);
        }
        i = i + 1;
        assert(buf@ =~= p@ + record_content(fields@.subrange(0, i as int)));
    }
    assert(fields@.subrange(0, fields@.len() as int) =~= fields@);
    sha3(buf.as_slice())
}

/// The digest of a unit variant: the type name's digest, then the digest of
/// the variant name's digest followed by the discriminant's digest.
pub open spec fn variant_digest(
    ty: Seq<char>,
    variant_name: Seq<char>,
    discriminant: Seq<u8>,
) -> Seq<u8> {
    sha3_256(label_digest(ty) + sha3_256(label_digest(variant_name) + discriminant))
}

/// Hashes the variant of a unit-only enum, given the digest of its discriminant.
pub fn hash_variant(ty: &str, variant_name: &str, discriminant: &[u8; 32]) -> (r: [u8; 32])
    ensures
        r@ == variant_digest(ty@, variant_name@, discriminant@),
{
    let inner = hash_field(variant_name, discriminant);
    let mut buf: Vec<u8> = Vec::new();
    let p = prefix(ty);
    append_digest(&mut buf, &p);
    append_digest(&mut buf, &inner);
    sha3(buf.as_slice())
}

/// Hashes a variant whose discriminant is its zero-based declaration position,
/// taken as a `u8`.
pub fn hash_variant_at(ty: &str, variant_name: &str, position: u8) -> (r: [u8; 32])
    ensures
        r@ == variant_digest(ty@, variant_name@, position.canonical()),
{
    let d = position.hash();
    hash_variant(ty, variant_name, &d)
}

/// Hashes a variant whose discriminant was assigned explicitly, taken as a `u32`.
pub fn hash_variant_explicit(ty: &str, variant_name: &str, discriminant: u32) -> (r: [u8; 32])
    ensures
        r@ == variant_digest(ty@, variant_name@, discriminant.canonical()),
{
    let d = discriminant.hash();
    hash_variant(ty, variant_name, &d)
}

/// Two field lists that agree on names, on exclusion, and on the digests of
/// the included fields.
pub open spec fn same_but_excluded(f1: Seq<FieldHash>, f2: Seq<FieldHash>) -> bool {
    &&& f1.len() == f2.len()
    &&& forall|i: int|
        0 <= i < f1.len() ==> {
            &&& (#[trigger] f1[i]).name@ == f2[i].name@
            &&& f1[i].excluded == f2[i].excluded
            &&& !f1[i].excluded ==> f1[i].digest@ == f2[i].digest@
        }
}

/// Field exclusion: a record's digest is the same whatever its excluded
/// fields hold.
pub proof fn law_excluded_fields_ignored(ty: Seq<char>, f1: Seq<FieldHash>, f2: Seq<FieldHash>)
    requires
        same_but_excluded(f1, f2),
    ensures
        record_digest(ty, f1) == record_digest(ty, f2),
{
    lemma_content_ignores_excluded(f1, f2);
}

proof fn lemma_content_ignores_excluded(f1: Seq<FieldHash>, f2: Seq<FieldHash>)
    requires
        same_but_excluded(f1, f2),
    ensures
        record_content(f1) == record_content(f2),
    decreases f1.len(),
{
    if f1.len() > 0 {
        let n = f1.len() - 1;
        assert(f1[n].name@ == f2[n].name@);
        assert(same_but_excluded(f1.drop_last(), f2.drop_last())) by {
            assert forall|i: int| 0 <= i < f1.len() - 1 implies #[trigger] f1.drop_last()[i]
                == f1[i] && f2.drop_last()[i] == f2[i] by {}
        }
        lemma_content_ignores_excluded(f1.drop_last(), f2.drop_last());
    }
}

} // verus!
