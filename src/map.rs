//! The canonical mapping rule: entries hashed in ascending order of their keys'
//! UTF-8 bytes, whatever order they are given in.
use crate::adt::{list_digest, pair_digest};
use crate::digest::{append_digest, zero_block, zero_digest};
use crate::hash::{framed, hash_framed, hash_framed_digest, Hashable};
use crate::scalar::{be_bytes, to_be_bytes};
use vstd::prelude::*;
use vstd::string::StrSliceExecFns;
use vstd::utf8::{decode_utf8, encode_utf8, encode_utf8_decode_utf8};

verus! {

/// Lexicographic order on byte strings: `a` comes strictly before `b`.
pub open spec fn lex_lt(a: Seq<u8>, b: Seq<u8>) -> bool
    decreases a.len(),
{
    if a.len() == 0 {
        b.len() > 0
    } else if b.len() == 0 {
        false
    } else if a[0] != b[0] {
        a[0] < b[0]
    } else {
        lex_lt(a.drop_first(), b.drop_first())
    }
}

/// No byte string comes before itself.
pub proof fn lemma_lex_irreflexive(a: Seq<u8>)
    ensures
        !lex_lt(a, a),
    decreases a.len(),
{
    if a.len() > 0 {
        lemma_lex_irreflexive(a.drop_first());
    }
}

/// The order is transitive.
pub proof fn lemma_lex_transitive(a: Seq<u8>, b: Seq<u8>, c: Seq<u8>)
    requires
        lex_lt(a, b),
        lex_lt(b, c),
    ensures
        lex_lt(a, c),
    decreases a.len(),
{
    if a.len() > 0 && b.len() > 0 && c.len() > 0 && a[0] == b[0] && b[0] == c[0] {
        lemma_lex_transitive(a.drop_first(), b.drop_first(), c.drop_first());
    }
}

/// Two different byte strings are ordered one way or the other.
pub proof fn lemma_lex_total(a: Seq<u8>, b: Seq<u8>)
    requires
        a != b,
    ensures
        lex_lt(a, b) || lex_lt(b, a),
    decreases a.len(),
{
    if a.len() == 0 {
        if b.len() == 0 {
            assert(a =~= b);
        }
    } else if b.len() > 0 && a[0] == b[0] {
        if a.drop_first() == b.drop_first() {
            assert(a =~= seq![a[0]] + a.drop_first());
            assert(b =~= seq![b[0]] + b.drop_first());
        }
        lemma_lex_total(a.drop_first(), b.drop_first());
    }
}

/// Whether `a` comes strictly before `b` in lexicographic byte order.
pub fn bytes_lt(a: &[u8], b: &[u8]) -> (r: bool)
    ensures
        r == lex_lt(a@, b@),
{
    let mut i: usize = 0;
    assert(a@.subrange(0, a@.len() as int) =~= a@);
    assert(b@.subrange(0, b@.len() as int) =~= b@);
    while i < a.len() && i < b.len() && a[i] == b[i]
        invariant
            0 <= i <= a@.len(),
            i <= b@.len(),
            lex_lt(a@, b@) == lex_lt(
                a@.subrange(i as int, a@.len() as int),
                b@.subrange(i as int, b@.len() as int),
            ),
        decreases a@.len() - i,
    {
        let ghost sa = a@.subrange(i as int, a@.len() as int);
        let ghost sb = b@.subrange(i as int, b@.len() as int);
        assert(sa.drop_first() =~= a@.subrange(i + 1, a@.len() as int));
        assert(sb.drop_first() =~= b@.subrange(i + 1, b@.len() as int));
        i = i + 1;
    }
    if i == a.len() {
        i < b.len()
    } else if i == b.len() {
        false
    } else {
        a[i] < b[i]
    }
}

/// A mapping entry as the rule sees it: the key's order bytes, and the
/// entry's digest (key and value hashed together by the pair rule).
pub type EntryModel = (Seq<u8>, Seq<u8>);

/// Keys strictly ascending, hence also distinct.
pub open spec fn ascending(q: Seq<EntryModel>) -> bool {
    forall|i: int, j: int| 0 <= i < j < q.len() ==> lex_lt(#[trigger] q[i].0, #[trigger] q[j].0)
}

/// The entries of `s` in ascending key order.
pub open spec fn canonical_order(s: Set<EntryModel>) -> Seq<EntryModel> {
    choose|q: Seq<EntryModel>| ascending(q) && q.to_set() == s
}

/// The entry digests of `q`, concatenated in order.
pub open spec fn entries_concat(q: Seq<EntryModel>) -> Seq<u8>
    decreases q.len(),
{
    if q.len() == 0 {
        Seq::empty()
    } else {
        entries_concat(q.drop_last()) + q.last().1
    }
}

/// The content of a mapping: 32 zero bytes when empty, else its entries'
/// digests in ascending key order.
pub open spec fn map_content(s: Set<EntryModel>) -> Seq<u8> {
    let q = canonical_order(s);
    if q.len() == 0 {
        zero_block()
    } else {
        entries_concat(q)
    }
}

/// The digest of a mapping, a function of its set of entries alone.
pub open spec fn map_digest(s: Set<EntryModel>) -> Seq<u8> {
    framed("map"@, map_content(s))
}

/// A key of a mapping. Its order bytes place its entry in the canonical
/// order (lexicographically); two keys are the same key when their order
/// bytes are equal.
pub trait MapKey: Hashable {
    /// The key's order bytes.
    spec fn order_bytes(&self) -> Seq<u8>;

    /// Computes the key's order bytes.
    fn key_bytes(&self) -> (r: Vec<u8>)
        ensures
            r@ == self.order_bytes(),
    ;
}

/// A string key is ordered by its UTF-8 bytes.
impl MapKey for String {
    open spec fn order_bytes(&self) -> Seq<u8> {
        encode_utf8(self@)
    }

    fn key_bytes(&self) -> (r: Vec<u8>) {
        self.as_str().as_bytes_vec()
    }
}

/// An unsigned key is ordered by its big-endian bytes, which is its numeric order.
impl MapKey for u8 {
    open spec fn order_bytes(&self) -> Seq<u8> {
        be_bytes(*self as nat, 1)
    }

    fn key_bytes(&self) -> (r: Vec<u8>) {
        to_be_bytes(*self as u128, 1)
    }
}

impl MapKey for u16 {
    open spec fn order_bytes(&self) -> Seq<u8> {
        be_bytes(*self as nat, 2)
    }

    fn key_bytes(&self) -> (r: Vec<u8>) {
        to_be_bytes(*self as u128, 2)
    }
}

impl MapKey for u32 {
    open spec fn order_bytes(&self) -> Seq<u8> {
        be_bytes(*self as nat, 4)
    }

    fn key_bytes(&self) -> (r: Vec<u8>) {
        to_be_bytes(*self as u128, 4)
    }
}

impl MapKey for u64 {
    open spec fn order_bytes(&self) -> Seq<u8> {
        be_bytes(*self as nat, 8)
    }

    fn key_bytes(&self) -> (r: Vec<u8>) {
        to_be_bytes(*self as u128, 8)
    }
}

impl MapKey for u128 {
    open spec fn order_bytes(&self) -> Seq<u8> {
        be_bytes(*self as nat, 16)
    }

    fn key_bytes(&self) -> (r: Vec<u8>) {
        to_be_bytes(*self, 16)
    }
}

/// The model of an entry: the key's order bytes and the pair digest of key
/// and value.
pub open spec fn entry_model<K: MapKey, V: Hashable>(e: (K, V)) -> EntryModel {
    (e.0.order_bytes(), pair_digest(e.0.canonical(), e.1.canonical()))
}

/// The models of the entries, in the order given.
pub open spec fn entries_model<K: MapKey, V: Hashable>(s: Seq<(K, V)>) -> Seq<EntryModel> {
    s.map_values(|e: (K, V)| entry_model(e))
}

/// No key occurs twice.
pub open spec fn distinct_keys<K: MapKey, V>(s: Seq<(K, V)>) -> bool {
    forall|i: int, j: int|
        0 <= i < s.len() && 0 <= j < s.len() && i != j ==> s[i].0.order_bytes()
            != s[j].0.order_bytes()
}

/// Two ascending sequences with the same entries are the same sequence.
pub proof fn lemma_ascending_unique(q1: Seq<EntryModel>, q2: Seq<EntryModel>)
    requires
        ascending(q1),
        ascending(q2),
        q1.to_set() == q2.to_set(),
    ensures
        q1 == q2,
    decreases q1.len(),
{
    if q1.len() == 0 || q2.len() == 0 {
        if q1.len() > 0 {
            assert(q1.to_set().contains(q1[0]));
        }
        if q2.len() > 0 {
            assert(q2.to_set().contains(q2[0]));
        }
        assert(q1 =~= q2);
    } else {
        let x = q1[0];
        let y = q2[0];
        assert(q2.to_set().contains(x));
        assert(q1.to_set().contains(y));
        let j = choose|j: int| 0 <= j < q2.len() && q2[j] == x;
        let i = choose|i: int| 0 <= i < q1.len() && q1[i] == y;
        if i > 0 && j > 0 {
            assert(lex_lt(x.0, y.0));
            assert(lex_lt(y.0, x.0));
            lemma_lex_transitive(x.0, y.0, x.0);
            lemma_lex_irreflexive(x.0);
        }
        assert(x == y);
        let t1 = q1.drop_first();
        let t2 = q2.drop_first();
        assert forall|e: EntryModel| t1.to_set().contains(e) implies t2.to_set().contains(e) by {
            let k = choose|k: int| 0 <= k < t1.len() && t1[k] == e;
            assert(q1[k + 1] == e);
            assert(lex_lt(x.0, e.0));
            lemma_lex_irreflexive(x.0);
            assert(q2.to_set().contains(e));
            let m = choose|m: int| 0 <= m < q2.len() && q2[m] == e;
            assert(m != 0);
            assert(t2[m - 1] == e);
        }
        assert forall|e: EntryModel| t2.to_set().contains(e) implies t1.to_set().contains(e) by {
            let k = choose|k: int| 0 <= k < t2.len() && t2[k] == e;
            assert(q2[k + 1] == e);
            assert(lex_lt(y.0, e.0));
            lemma_lex_irreflexive(y.0);
            assert(q1.to_set().contains(e));
            let m = choose|m: int| 0 <= m < q1.len() && q1[m] == e;
            assert(m != 0);
            assert(t1[m - 1] == e);
        }
        assert(t1.to_set() =~= t2.to_set());
        lemma_ascending_unique(t1, t2);
        assert(q1 =~= seq![x] + t1);
        assert(q2 =~= seq![y] + t2);
    }
}

/// Any ascending sequence of the entries is the canonical order.
pub proof fn lemma_canonical_order(q: Seq<EntryModel>)
    requires
        ascending(q),
    ensures
        canonical_order(q.to_set()) == q,
{
    let c = canonical_order(q.to_set());
    assert(ascending(c) && c.to_set() == q.to_set());
    lemma_ascending_unique(c, q);
}

/// Inserting an entry into a sequence inserts it into the sequence's set.
proof fn lemma_insert_to_set(q: Seq<EntryModel>, j: int, x: EntryModel)
    requires
        0 <= j <= q.len(),
    ensures
        q.insert(j, x).to_set() == q.to_set().insert(x),
{
    let r = q.insert(j, x);
    assert forall|e: EntryModel| r.to_set().contains(e) <==> q.to_set().insert(x).contains(e) by {
        if r.contains(e) {
            let k = choose|k: int| 0 <= k < r.len() && r[k] == e;
            if k < j {
                assert(q[k] == e);
            } else if k > j {
                assert(q[k - 1] == e);
            }
        }
        if q.contains(e) {
            let k = choose|k: int| 0 <= k < q.len() && q[k] == e;
            if k < j {
                assert(r[k] == e);
            } else {
                assert(r[k + 1] == e);
            }
        }
        if e == x {
            assert(r[j] == x);
        }
    }
    assert(r.to_set() =~= q.to_set().insert(x));
}

/// Inserting an entry between the smaller and the larger keys keeps the keys ascending.
proof fn lemma_insert_ascending(q: Seq<EntryModel>, j: int, x: EntryModel)
    requires
        ascending(q),
        0 <= j <= q.len(),
        forall|k: int| 0 <= k < j ==> lex_lt(#[trigger] q[k].0, x.0),
        forall|k: int| j <= k < q.len() ==> lex_lt(x.0, #[trigger] q[k].0),
    ensures
        ascending(q.insert(j, x)),
{
    let r = q.insert(j, x);
    assert forall|a: int, b: int| 0 <= a < b < r.len() implies lex_lt(
        #[trigger] r[a].0,
        #[trigger] r[b].0,
    ) by {
        if b < j {
            assert(r[a] == q[a] && r[b] == q[b]);
        } else if b == j {
            assert(r[a] == q[a]);
        } else if a < j {
            assert(r[a] == q[a] && r[b] == q[b - 1]);
        } else if a == j {
            assert(r[b] == q[b - 1]);
        } else {
            assert(r[a] == q[a - 1] && r[b] == q[b - 1]);
        }
    }
}

/// The model of a working list: key order bytes and entry digest.
pub open spec fn items_model(v: Seq<(Vec<u8>, [u8; 32])>) -> Seq<EntryModel> {
    v.map_values(|x: (Vec<u8>, [u8; 32])| (x.0@, x.1@))
}

/// No two entries have the same key bytes.
pub open spec fn distinct_key_bytes(s: Seq<(Vec<u8>, [u8; 32])>) -> bool {
    forall|i: int, j: int|
        0 <= i < s.len() && 0 <= j < s.len() && i != j ==> s[i].0@ != s[j].0@
}

/// Hashes a mapping given by its entries' key order bytes and entry digests,
/// in any order: the entries are put in ascending order of their keys' bytes
/// first.
pub fn hash_map_digests(entries: &[(Vec<u8>, [u8; 32])]) -> (r: [u8; 32])
    requires
        distinct_key_bytes(entries@),
    ensures
        r@ == map_digest(items_model(entries@).to_set()),
{
    let mut sorted: Vec<(Vec<u8>, [u8; 32])> = Vec::new();
    let mut i: usize = 0;
    assert(items_model(entries@.subrange(0, 0)).to_set() =~= Set::empty());
    assert(items_model(sorted@).to_set() =~= Set::empty());
    while i < entries.len()
        invariant
            0 <= i <= entries@.len(),
            distinct_key_bytes(entries@),
            ascending(items_model(sorted@)),
            items_model(sorted@).to_set() == items_model(entries@.subrange(0, i as int)).to_set(),
        decreases entries@.len() - i,
    {
        let key: Vec<u8> = entries[i].0.clone();
        let value: [u8; 32] = entries[i].1;
        let ghost x: EntryModel = (key@, value@);
        let ghost m = items_model(sorted@);
        proof {
            assert(x == items_model(entries@)[i as int]);
            assert forall|k: int| 0 <= k < m.len() implies #[trigger] m[k].0 != key@ by {
                assert(m.to_set().contains(m[k]));
                let es = items_model(entries@.subrange(0, i as int));
                let t = choose|t: int| 0 <= t < es.len() && es[t] == m[k];
                assert(es[t] == items_model(entries@)[t]);
            }
        }
        let mut j: usize = 0;
        let mut done = false;
        while !done
            invariant
                0 <= j <= sorted@.len(),
                m == items_model(sorted@),
                forall|k: int| 0 <= k < m.len() ==> #[trigger] m[k].0 != key@,
                forall|k: int| 0 <= k < j ==> lex_lt(#[trigger] m[k].0, key@),
                done ==> (j == sorted@.len() || lex_lt(key@, m[j as int].0)),
            decreases sorted@.len() - j + (if done { 0int } else { 1int }),
        {
            if j == sorted.len() {
                done = true;
            } else if bytes_lt(key.as_slice(), sorted[j].0.as_slice()) {
                done = true;
            } else {
                proof {
                    assert(m[j as int].0 == sorted@[j as int].0@);
                    lemma_lex_total(key@, m[j as int].0);
                }
                j = j + 1;
            }
        }
        proof {
            assert forall|k: int| j <= k < m.len() implies lex_lt(key@, #[trigger] m[k].0) by {
                if k > j {
                    lemma_lex_transitive(key@, m[j as int].0, m[k].0);
                }
            }
            lemma_insert_ascending(m, j as int, x);
            lemma_insert_to_set(m, j as int, x);
        }
        sorted.insert(j, (key, value));
        proof {
            assert(items_model(sorted@) =~= m.insert(j as int, x));
            assert(items_model(entries@.subrange(0, i + 1)) =~= items_model(
                entries@.subrange(0, i as int),
            ).push(x));
            items_model(entries@.subrange(0, i as int)).lemma_push_to_set_commute(x);
        }
        i = i + 1;
    }
    assert(entries@.subrange(0, entries@.len() as int) =~= entries@);
    let ghost q = items_model(sorted@);
    let mut buf: Vec<u8> = Vec::new();
    let mut k: usize = 0;
    while k < sorted.len()
        invariant
            0 <= k <= sorted@.len(),
            q == items_model(sorted@),
            buf@ == entries_concat(q.subrange(0, k as int)),
        decreases sorted@.len() - k,
    {
        append_digest(&mut buf, &sorted[k].1);
        k = k + 1;
        assert(q.subrange(0, k as int).drop_last() =~= q.subrange(0, k - 1));
    }
    proof {
        assert(q.subrange(0, q.len() as int) =~= q);
        lemma_canonical_order(q);
    }
    if sorted.len() == 0 {
        let z = zero_digest();
        hash_framed_digest("map", &z)
    } else {
        hash_framed("map", buf.as_slice())
    }
}

/// Mapping order independence: two entry lists that hold the same key-value
/// pairs, in whatever order, have the same digest.
pub proof fn law_map_order_independent<K: MapKey, V: Hashable>(e1: Seq<(K, V)>, e2: Seq<(K, V)>)
    requires
        e1.to_set() == e2.to_set(),
    ensures
        map_digest(entries_model(e1).to_set()) == map_digest(entries_model(e2).to_set()),
{
    assert forall|x: EntryModel| entries_model(e1).to_set().contains(x) implies entries_model(
        e2,
    ).to_set().contains(x) by {
        let i = choose|i: int| 0 <= i < e1.len() && entries_model(e1)[i] == x;
        assert(e2.to_set().contains(e1[i]));
        let j = choose|j: int| 0 <= j < e2.len() && e2[j] == e1[i];
        assert(entries_model(e2)[j] == x);
    }
    assert forall|x: EntryModel| entries_model(e2).to_set().contains(x) implies entries_model(
        e1,
    ).to_set().contains(x) by {
        let i = choose|i: int| 0 <= i < e2.len() && entries_model(e2)[i] == x;
        assert(e1.to_set().contains(e2[i]));
        let j = choose|j: int| 0 <= j < e1.len() && e1[j] == e2[i];
        assert(entries_model(e1)[j] == x);
    }
    assert(entries_model(e1).to_set() =~= entries_model(e2).to_set());
}


/// Hashes a mapping given by its entries, in any order.
pub fn hash_map_entries<K: MapKey, V: Hashable>(entries: &[(K, V)]) -> (r: [u8; 32])
    requires
        distinct_keys(entries@),
    ensures
        r@ == map_digest(entries_model(entries@).to_set()),
{
    let mut items: Vec<(Vec<u8>, [u8; 32])> = Vec::new();
    let mut i: usize = 0;
    while i < entries.len()
        invariant
            0 <= i <= entries@.len(),
            items_model(items@) == entries_model(entries@.subrange(0, i as int)),
        decreases entries@.len() - i,
    {
        let key: Vec<u8> = entries[i].0.key_bytes();
        let pair: [u8; 32] = entries[i].hash();
        let ghost before = items@;
        let ghost x: EntryModel = (key@, pair@);
        assert(x == entry_model(entries@[i as int]));
        items.push((key, pair));
        assert(items_model(items@) =~= items_model(before).push(x));
        i = i + 1;
        assert(items_model(items@) =~= entries_model(entries@.subrange(0, i as int)));
    }
    assert(entries@.subrange(0, entries@.len() as int) =~= entries@);
    proof {
        assert forall|a: int, b: int|
            0 <= a < items@.len() && 0 <= b < items@.len() && a != b implies items@[a].0@
            != items@[b].0@ by {
            assert(items@[a].0@ == items_model(items@)[a].0);
            assert(items@[b].0@ == items_model(items@)[b].0);
        }
    }
    hash_map_digests(items.as_slice())
}

/// The empty sequence, the empty mapping and the absent optional value each
/// frame 32 zero bytes, under the labels "list", "map" and "optional", no two
/// of which are the same.
pub proof fn law_empty_shapes_labelled<T: Hashable, A: Hashable>()
    ensures
        list_digest(Seq::<T>::empty()) == framed("list"@, zero_block()),
        map_digest(Set::<EntryModel>::empty()) == framed("map"@, zero_block()),
        Hashable::canonical(&None::<A>) == framed("optional"@, zero_block()),
        "list"@ != "map"@,
        "list"@ != "optional"@,
        "map"@ != "optional"@,
{
    let e = Seq::<EntryModel>::empty();
    assert(e.to_set() =~= Set::<EntryModel>::empty());
    lemma_canonical_order(e);
    reveal_strlit("list");
    reveal_strlit("map");
    reveal_strlit("optional");
    assert("list"@.len() == 4);
    assert("map"@.len() == 3);
    assert("optional"@.len() == 8);
}

/// Whether two byte strings are equal.
pub fn bytes_eq(a: &[u8], b: &[u8]) -> (r: bool)
    ensures
        r == (a@ == b@),
{
    let r = !bytes_lt(a, b) && !bytes_lt(b, a);
    proof {
        if a@ != b@ {
            lemma_lex_total(a@, b@);
        } else {
            lemma_lex_irreflexive(a@);
        }
    }
    r
}

/// Whether two strings are the same, compared by their UTF-8 bytes.
pub fn same_key(a: &str, b: &str) -> (r: bool)
    ensures
        r == (a@ == b@),
{
    let r = bytes_eq(a.as_bytes(), b.as_bytes());
    proof {
        encode_utf8_decode_utf8(a@);
        encode_utf8_decode_utf8(b@);
    }
    r
}

/// The position of the entry whose key has order bytes `k`, if there is one.
pub open spec fn key_index<K: MapKey, V>(s: Seq<(K, V)>, k: Seq<u8>) -> Option<int> {
    if exists|i: int| 0 <= i < s.len() && s[i].0.order_bytes() == k {
        Some(choose|i: int| 0 <= i < s.len() && s[i].0.order_bytes() == k)
    } else {
        None
    }
}

/// A mapping from keys to values; each key occurs once.
pub struct CanonicalMap<K: MapKey, V> {
    entries: Vec<(K, V)>,
}

impl<K: MapKey, V> CanonicalMap<K, V> {
    #[verifier::type_invariant]
    spec fn keys_distinct(self) -> bool {
        distinct_keys(self.entries@)
    }

    /// The entries, in the order their keys were first inserted.
    pub closed spec fn entries(self) -> Seq<(K, V)> {
        self.entries@
    }

    /// An empty mapping.
    pub fn new() -> (r: Self)
        ensures
            r.entries() == Seq::<(K, V)>::empty(),
    {
        CanonicalMap { entries: Vec::new() }
    }

    /// Maps `key` to `value`: replaces an existing entry with the same key in
    /// place, else adds the entry at the end.
    pub fn insert(&mut self, key: K, value: V)
        ensures
            match key_index(old(self).entries(), key.order_bytes()) {
                Some(i) => final(self).entries() == old(self).entries().update(i, (key, value)),
                None => final(self).entries() == old(self).entries().push((key, value)),
            },
    {
        proof {
            use_type_invariant(&*self);
        }
        let mut entries: Vec<(K, V)> = Vec::new();
        std::mem::swap(&mut entries, &mut self.entries);
        let ghost s = entries@;
        let kb = key.key_bytes();
        let mut i: usize = 0;
        let mut found = false;
        while i < entries.len() && !found
            invariant
                s == entries@,
                distinct_keys(s),
                kb@ == key.order_bytes(),
                0 <= i <= s.len(),
                found ==> i < s.len() && s[i as int].0.order_bytes() == kb@,
                !found ==> forall|k: int|
                    0 <= k < i ==> (#[trigger] s[k]).0.order_bytes() != kb@,
            decreases s.len() - i + (if found { 0int } else { 1int }),
        {
            let eb = entries[i].0.key_bytes();
            if bytes_eq(eb.as_slice(), kb.as_slice()) {
                found = true;
            } else {
                i = i + 1;
            }
        }
        if found {
            proof {
                assert(exists|k: int| 0 <= k < s.len() && s[k].0.order_bytes() == kb@);
                let c = choose|k: int| 0 <= k < s.len() && s[k].0.order_bytes() == kb@;
                assert(c == i);
            }
            entries.set(i, (key, value));
            proof {
                assert forall|a: int, b: int|
                    0 <= a < entries@.len() && 0 <= b < entries@.len() && a != b
                    implies entries@[a].0.order_bytes() != entries@[b].0.order_bytes() by {
                    assert(s[a].0.order_bytes() != s[b].0.order_bytes());
                }
            }
        } else {
            entries.push((key, value));
        }
        self.entries = entries;
    }

    /// The number of entries.
    pub fn len(&self) -> (r: usize)
        ensures
            r == self.entries().len(),
    {
        self.entries.len()
    }
}

impl<K: MapKey, V: Hashable> Hashable for CanonicalMap<K, V> {
    /// The mapping rule over the entries, whatever their order.
    open spec fn canonical(&self) -> Seq<u8> {
        map_digest(entries_model(self.entries()).to_set())
    }

    fn hash(&self) -> (r: [u8; 32]) {
        proof {
            use_type_invariant(self);
        }
        hash_map_entries(self.entries.as_slice())
    }
}

/// Mapping order independence for `CanonicalMap`: two mappings that hold the
/// same key-value pairs, whatever order they were inserted in, have the same
/// digest.
pub proof fn law_canonical_map_order_independent<K: MapKey, V: Hashable>(
    m1: CanonicalMap<K, V>,
    m2: CanonicalMap<K, V>,
)
    requires
        m1.entries().to_set() == m2.entries().to_set(),
    ensures
        m1.canonical() == m2.canonical(),
{
    law_map_order_independent(m1.entries(), m2.entries());
}

} // verus!
