use niz::hash::{prefix, Hashable};
use niz::scalar::{hash_str, to_be_bytes, Uuid};
use niz::time::{hash_datetime_text, Timestamp};
use tiny_keccak::{Hasher, Sha3};

fn sha3(data: &[u8]) -> [u8; 32] {
    let mut out = [0u8; 32];
    let mut h = Sha3::v256();
    h.update(data);
    h.finalize(&mut out);
    out
}

fn framed(label: &str, content: &[u8]) -> [u8; 32] {
    let mut buf = prefix(label).to_vec();
    buf.extend_from_slice(content);
    sha3(&buf)
}

#[test]
fn prefix_digests_label_bytes() {
    assert_eq!(prefix("tuple"), sha3(b"tuple"));
    assert_ne!(prefix("list"), prefix("map"));
}

#[test]
fn integers_hash_big_endian_bytes() {
    assert_eq!(0x01020304u32.hash(), sha3(&[1, 2, 3, 4]));
    assert_eq!(7u8.hash(), sha3(&[7]));
    assert_eq!(258u16.hash(), sha3(&[1, 2]));
    assert_eq!(u64::MAX.hash(), sha3(&u64::MAX.to_be_bytes()));
    assert_eq!(u128::MAX.hash(), sha3(&u128::MAX.to_be_bytes()));
    assert_eq!((-1i32).hash(), sha3(&[0xff, 0xff, 0xff, 0xff]));
    assert_eq!((-2i8).hash(), sha3(&(-2i8).to_be_bytes()));
    assert_eq!(i16::MIN.hash(), sha3(&i16::MIN.to_be_bytes()));
    assert_eq!((-5i64).hash(), sha3(&(-5i64).to_be_bytes()));
    assert_eq!(i128::MIN.hash(), sha3(&i128::MIN.to_be_bytes()));
    assert_ne!(1u32.hash(), 1u8.hash());
}

#[test]
fn be_bytes_of_a_value() {
    assert_eq!(to_be_bytes(0x0a0b0c, 4), vec![0, 0x0a, 0x0b, 0x0c]);
    assert_eq!(to_be_bytes(0x0a0b0c, 2), vec![0x0b, 0x0c]);
    assert_eq!(to_be_bytes(5, 0), Vec::<u8>::new());
}

#[test]
fn booleans_hash_one_byte() {
    assert_eq!(true.hash(), sha3(&[1]));
    assert_eq!(false.hash(), sha3(&[0]));
}

#[test]
fn strings_are_label_then_content() {
    let expected = framed("string", &sha3(b"hello"));
    assert_eq!(hash_str("hello"), expected);
    assert_eq!("hello".to_string().hash(), expected);
    assert_ne!(hash_str("hello"), sha3(b"hello"));
    assert_eq!(hash_str(""), framed("string", &sha3(b"")));
}

#[test]
fn repeated_hashing_is_deterministic() {
    let s = "same".to_string();
    assert_eq!(s.hash(), s.hash());
    assert_eq!(42u64.hash(), 42u64.hash());
}

#[test]
fn identifiers_hash_raw_bytes() {
    let id = Uuid { bytes: [9u8; 16] };
    assert_eq!(id.hash(), sha3(&[9u8; 16]));
}

#[test]
fn timestamps_hash_rfc3339_text() {
    let text = "2015-05-15T00:00:00+00:00";
    let expected = framed("datetime", &sha3(text.as_bytes()));
    assert_eq!(hash_datetime_text(text), expected);
    let t = Timestamp { secs: 1431648000, nanos: 0 };
    assert_eq!(t.hash(), Some(expected));
    let bad = Timestamp { secs: i64::MAX, nanos: 0 };
    assert_eq!(bad.hash(), None);
}
