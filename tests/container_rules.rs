use niz::adt::hash_slice;
use niz::hash::{prefix, Hashable};
use niz::map::{bytes_eq, bytes_lt, hash_map_digests, hash_map_entries, same_key, CanonicalMap};
use niz::value::{hash_json, hash_number, JsonNumber, JsonValue};
use tiny_keccak::{Hasher, Sha3};

fn sha3(data: &[u8]) -> [u8; 32] {
    let mut out = [0u8; 32];
    let mut h = Sha3::v256();
    h.update(data);
    h.finalize(&mut out);
    out
}

fn framed(label: &str, content: &[u8]) -> [u8; 32] {
    let mut buf = prefix(label).to_vec();
    buf.extend_from_slice(content);
    sha3(&buf)
}

fn cat(parts: &[[u8; 32]]) -> Vec<u8> {
    let mut v = Vec::new();
    for p in parts {
        v.extend_from_slice(p);
    }
    v
}

#[test]
fn lists_concatenate_in_order() {
    let v = vec![1u8, 2u8];
    assert_eq!(v.hash(), framed("list", &cat(&[1u8.hash(), 2u8.hash()])));
    let w = vec![2u8, 1u8];
    assert_ne!(v.hash(), w.hash());
    assert_eq!(hash_slice(&[3u16]), framed("list", &3u16.hash()));
}

#[test]
fn empty_shapes_are_distinct() {
    let list: Vec<u32> = Vec::new();
    let map: Vec<(String, u32)> = Vec::new();
    let none: Option<u32> = None;
    let l = list.hash();
    let m = hash_map_entries(&map);
    let o = none.hash();
    assert_eq!(l, framed("list", &[0u8; 32]));
    assert_eq!(m, framed("map", &[0u8; 32]));
    assert_eq!(o, framed("optional", &[0u8; 32]));
    assert_ne!(l, m);
    assert_ne!(l, o);
    assert_ne!(m, o);
}

#[test]
fn optional_wraps_the_element_digest() {
    let some = Some(5u32);
    assert_eq!(some.hash(), framed("optional", &sha3(&5u32.hash())));
}

#[test]
fn results_tag_their_side() {
    let ok: Result<u32, String> = Ok(3);
    let err: Result<u32, String> = Err("e".to_string());
    let mut inner = prefix("ok").to_vec();
    inner.extend_from_slice(&3u32.hash());
    assert_eq!(ok.hash(), framed("result", &sha3(&inner)));
    let mut inner = prefix("err").to_vec();
    inner.extend_from_slice(&"e".to_string().hash());
    assert_eq!(err.hash(), framed("result", &sha3(&inner)));
    let ok3: Result<u32, u32> = Ok(3);
    let err3: Result<u32, u32> = Err(3);
    assert_ne!(ok3.hash(), err3.hash());
}

#[test]
fn pairs_are_positional() {
    let p = (1u8, 2u8);
    assert_eq!(p.hash(), framed("tuple", &cat(&[1u8.hash(), 2u8.hash()])));
    assert_ne!(p.hash(), (2u8, 1u8).hash());
}

#[test]
fn byte_order_is_lexicographic() {
    assert!(bytes_lt(b"a", b"b"));
    assert!(bytes_lt(b"a", b"ab"));
    assert!(!bytes_lt(b"ab", b"a"));
    assert!(!bytes_lt(b"a", b"a"));
    assert!(bytes_lt(b"", b"a"));
    assert!(bytes_lt(b"Z", b"a"));
}

#[test]
fn mapping_order_does_not_matter() {
    let m1 = vec![("b".to_string(), 2u32), ("a".to_string(), 1u32), ("c".to_string(), 3u32)];
    let m2 = vec![("c".to_string(), 3u32), ("a".to_string(), 1u32), ("b".to_string(), 2u32)];
    let h1 = hash_map_entries(&m1);
    assert_eq!(h1, hash_map_entries(&m2));
    let pa = ("a".to_string(), 1u32).hash();
    let pb = ("b".to_string(), 2u32).hash();
    let pc = ("c".to_string(), 3u32).hash();
    assert_eq!(h1, framed("map", &cat(&[pa, pb, pc])));
}

#[test]
fn mapping_from_digests_sorts_by_key_bytes() {
    let pz = ("z".to_string(), 2u8).hash();
    let pzz = ("zz".to_string(), 1u8).hash();
    let entries = vec![(b"zz".to_vec(), pzz), (b"z".to_vec(), pz)];
    assert_eq!(hash_map_digests(&entries), framed("map", &cat(&[pz, pzz])));
}

#[test]
fn value_tree_null_is_zero() {
    assert_eq!(hash_json(&JsonValue::Null), [0u8; 32]);
    assert_eq!(hash_json(&JsonValue::Bool(true)), true.hash());
    assert_eq!(hash_json(&JsonValue::String("x".to_string())), "x".to_string().hash());
}

#[test]
fn value_tree_numbers() {
    assert_eq!(hash_number(&JsonNumber::Unsigned(7)), 7u64.hash());
    assert_eq!(hash_number(&JsonNumber::Signed(-7)), (-7i64).hash());
    assert_eq!(hash_number(&JsonNumber::FloatBits(1.5f64.to_bits())), sha3(&1.5f64.to_be_bytes()));
}

#[test]
fn value_tree_containers() {
    let arr = JsonValue::Array(vec![
        JsonValue::Number(JsonNumber::Unsigned(1)),
        JsonValue::Bool(false),
    ]);
    assert_eq!(hash_json(&arr), framed("list", &cat(&[1u64.hash(), false.hash()])));
    assert_eq!(hash_json(&JsonValue::Array(Vec::new())), Vec::<u8>::new().hash());
    let o1 = JsonValue::Object(vec![
        ("y".to_string(), JsonValue::Null),
        ("x".to_string(), JsonValue::Bool(true)),
    ]);
    let o2 = JsonValue::Object(vec![
        ("x".to_string(), JsonValue::Bool(true)),
        ("y".to_string(), JsonValue::Null),
    ]);
    assert_eq!(hash_json(&o1), hash_json(&o2));
    let px = framed("tuple", &cat(&["x".to_string().hash(), true.hash()]));
    let py = framed("tuple", &cat(&["y".to_string().hash(), [0u8; 32]]));
    assert_eq!(hash_json(&o1), framed("map", &cat(&[px, py])));
}

#[test]
fn canonical_map_insertion_order_does_not_matter() {
    let mut m1: CanonicalMap<String, u32> = CanonicalMap::new();
    m1.insert("b".to_string(), 2);
    m1.insert("a".to_string(), 1);
    let mut m2: CanonicalMap<String, u32> = CanonicalMap::new();
    m2.insert("a".to_string(), 1);
    m2.insert("b".to_string(), 2);
    assert_eq!(m1.len(), 2);
    assert_eq!(m1.hash(), m2.hash());
    let pairs = vec![("a".to_string(), 1u32), ("b".to_string(), 2u32)];
    assert_eq!(m1.hash(), hash_map_entries(&pairs));
}

#[test]
fn canonical_map_insert_replaces_existing_key() {
    let mut m: CanonicalMap<String, u32> = CanonicalMap::new();
    m.insert("k".to_string(), 1);
    m.insert("k".to_string(), 9);
    assert_eq!(m.len(), 1);
    let pairs = vec![("k".to_string(), 9u32)];
    assert_eq!(m.hash(), hash_map_entries(&pairs));
    let empty: CanonicalMap<String, u32> = CanonicalMap::new();
    assert_eq!(empty.hash(), framed("map", &[0u8; 32]));
}

#[test]
fn same_key_compares_strings() {
    assert!(same_key("abc", "abc"));
    assert!(!same_key("abc", "abd"));
    assert!(!same_key("ab", "abc"));
}

#[test]
fn integer_keys_sort_numerically() {
    let m1 = vec![(300u32, true), (2u32, false)];
    let m2 = vec![(2u32, false), (300u32, true)];
    let h = hash_map_entries(&m1);
    assert_eq!(h, hash_map_entries(&m2));
    let p2 = (2u32, false).hash();
    let p300 = (300u32, true).hash();
    assert_eq!(h, framed("map", &cat(&[p2, p300])));
    let mut m: CanonicalMap<u64, String> = CanonicalMap::new();
    m.insert(9, "x".to_string());
    m.insert(1, "y".to_string());
    m.insert(9, "z".to_string());
    assert_eq!(m.len(), 2);
    let pairs = vec![(1u64, "y".to_string()), (9u64, "z".to_string())];
    assert_eq!(m.hash(), hash_map_entries(&pairs));
}

#[test]
fn byte_equality() {
    assert!(bytes_eq(b"ab", b"ab"));
    assert!(!bytes_eq(b"ab", b"abc"));
    assert!(bytes_eq(b"", b""));
}
