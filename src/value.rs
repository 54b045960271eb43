//! The tagged value-tree adapter: null, booleans, numbers, strings, arrays and
//! objects, hashed by the rules of the matching kinds.
use crate::digest::{append_digest, zero_block, zero_digest};
use crate::adt::pair_digest;
use crate::hash::{framed, hash_framed, hash_framed_digest, hash_framed_pair, Hashable};
use crate::map::{hash_map_digests, items_model, map_digest, EntryModel};
use crate::scalar::{bool_digest, hash_str, int_digest, str_digest};
use vstd::prelude::*;
use vstd::string::StrSliceExecFns;
use vstd::utf8::encode_utf8;

verus! {

/// A number of a value tree.
pub enum JsonNumber {
    /// A non-negative integer.
    Unsigned(u64),
    /// A signed integer.
    Signed(i64),
    /// A floating-point number, held as its IEEE 754 bits.
    FloatBits(u64),
}

/// The digest of a number: its eight big-endian bytes, untagged.
pub open spec fn number_digest(n: JsonNumber) -> Seq<u8> {
    match n {
        JsonNumber::Unsigned(u) => int_digest(u as nat, 8),
        JsonNumber::Signed(i) => int_digest((i as u64) as nat, 8),
        JsonNumber::FloatBits(b) => int_digest(b as nat, 8),
    }
}

/// A value tree.
pub enum JsonValue {
    Null,
    Bool(bool),
    Number(JsonNumber),
    String(String),
    Array(Vec<JsonValue>),
    /// An object's members; each key occurs once.
    Object(Vec<(String, JsonValue)>),
}

/// The digest of a value tree: null is 32 zero bytes, untagged; the other
/// kinds follow the rule of the matching scalar or container.
pub open spec fn json_digest(v: JsonValue) -> Seq<u8>
    decreases v, 0int,
{
    match v {
        JsonValue::Null => zero_block(),
        JsonValue::Bool(b) => bool_digest(b),
        JsonValue::Number(n) => number_digest(n),
        JsonValue::String(s) => str_digest(s@),
        JsonValue::Array(a) => framed(
            "list"@,
            if a@.len() == 0 {
                zero_block()
            } else {
                json_concat(a@, a@.len() as int)
            },
        ),
        JsonValue::Object(o) => map_digest(json_members(o@, o@.len() as int).to_set()),
    }
}

/// The digests of the first `n` items of `s`, concatenated in order.
pub open spec fn json_concat(s: Seq<JsonValue>, n: int) -> Seq<u8>
    decreases s, n,
{
    if n <= 0 || n > s.len() {
        Seq::empty()
    } else {
        json_concat(s, n - 1) + json_digest(s[n - 1])
    }
}

/// The entry models of the first `n` members of an object.
pub open spec fn json_members(s: Seq<(String, JsonValue)>, n: int) -> Seq<EntryModel>
    decreases s, n,
{
    if n <= 0 || n > s.len() {
        Seq::empty()
    } else {
        json_members(s, n - 1).push(
            (encode_utf8(s[n - 1].0@), pair_digest(str_digest(s[n - 1].0@), json_digest(s[n - 1].1))),
        )
    }
}

/// Whether no two members of an object have the same key.
pub open spec fn distinct_members(s: Seq<(String, JsonValue)>) -> bool {
    forall|i: int, j: int| 0 <= i < s.len() && 0 <= j < s.len() && i != j ==> s[i].0@ != s[j].0@
}

/// Whether every object in the tree has distinct keys.
pub open spec fn well_formed(v: JsonValue) -> bool
    decreases v,
{
    match v {
        JsonValue::Array(a) => forall|i: int| 0 <= i < a@.len() ==> well_formed(#[trigger] a@[i]),
        JsonValue::Object(o) => distinct_members(o@) && forall|i: int|
            0 <= i < o@.len() ==> well_formed(#[trigger] o@[i].1),
        _ => true,
    }
}

/// Hashes a number.
pub fn hash_number(n: &JsonNumber) -> (r: [u8; 32])
    ensures
        r@ == number_digest(*n),
{
    match n {
        JsonNumber::Unsigned(u) => u.hash(),
        JsonNumber::Signed(i) => (*i as u64).hash(),
        JsonNumber::FloatBits(b) => b.hash(),
    }
}

/// Hashes a value tree; an object's members are taken in ascending key order.
pub fn hash_json(v: &JsonValue) -> (r: [u8; 32])
    requires
        well_formed(*v),
    ensures
        r@ == json_digest(*v),
    decreases v,
{
    match v {
        JsonValue::Null => zero_digest(),
        JsonValue::Bool(b) => b.hash(),
        JsonValue::Number(n) => hash_number(n),
        JsonValue::String(s) => hash_str(s.as_str()),
        JsonValue::Array(a) => {
            let mut buf: Vec<u8> = Vec::new();
            let mut i: usize = 0;
            while i < a.len()
                invariant
                    0 <= i <= a@.len(),
                    well_formed(*v),
                    *v == JsonValue::Array(*a),
                    buf@ == json_concat(a@, i as int),
                decreases a@.len() - i,
            {
                proof {
                    assert(decreases_to!(*a => a[i as int]));
                    assert(v->Array_0 == *a);
                    assert(decreases_to!(*v => v->Array_0));
                    assert(well_formed(a@[i as int]));
                }
                let d = hash_json(&a[i]);
                append_digest(&mut buf, &d);
                i = i + 1;
            }
            if a.len() == 0 {
                let z = zero_digest();
                hash_framed_digest("list", &z)
            } else {
                hash_framed("list", buf.as_slice())
            }
        },
        JsonValue::Object(o) => {
            let mut items: Vec<(Vec<u8>, [u8; 32])> = Vec::new();
            let mut i: usize = 0;
            while i < o.len()
                invariant
                    0 <= i <= o@.len(),
                    well_formed(*v),
                    *v == JsonValue::Object(*o),
                    items_model(items@) == json_members(o@, i as int),
                decreases o@.len() - i,
            {
                let key: Vec<u8> = o[i].0.as_str().as_bytes_vec();
                proof {
                    assert(decreases_to!(*o => o[i as int]));
                    assert(well_formed(o@[i as int].1));
                }
                let value: [u8; 32] = hash_json(&o[i].1);
                let ks = hash_str(o[i].0.as_str());
                let pair = hash_framed_pair("tuple", &ks, &value);
                let ghost before = items@;
                items.push((key, pair));
                assert(items_model(items@) =~= items_model(before).push((key@, pair@)));
                i = i + 1;
            }
            proof {
                lemma_members_len(o@, o@.len() as int);
                assert(items@.len() == items_model(items@).len());
                assert forall|a: int, b: int|
                    0 <= a < items@.len() && 0 <= b < items@.len() && a != b implies items@[a].0@
                    != items@[b].0@ by {
                    lemma_members_key(o@, o@.len() as int, a);
                    lemma_members_key(o@, o@.len() as int, b);
                    assert(items@[a].0@ == items_model(items@)[a].0);
                    assert(items@[b].0@ == items_model(items@)[b].0);
                    vstd::utf8::encode_utf8_decode_utf8(o@[a].0@);
                    vstd::utf8::encode_utf8_decode_utf8(o@[b].0@);
                }
            }
            hash_map_digests(items.as_slice())
        },
    }
}

/// The key of the `k`-th member model is the `k`-th key's UTF-8 bytes.
proof fn lemma_members_key(s: Seq<(String, JsonValue)>, n: int, k: int)
    requires
        0 <= k < n <= s.len(),
    ensures
        json_members(s, n).len() == n,
        json_members(s, n)[k].0 == encode_utf8(s[k].0@),
    decreases n,
{
    lemma_members_len(s, n);
    if k < n - 1 {
        lemma_members_key(s, n - 1, k);
    }
}

proof fn lemma_members_len(s: Seq<(String, JsonValue)>, n: int)
    requires
        0 <= n <= s.len(),
    ensures
        json_members(s, n).len() == n,
    decreases n,
{
    if n > 0 {
        lemma_members_len(s, n - 1);
    }
}

} // verus!
