//! What the store holds, as mathematics: two maps from raw keys to raw values,
//! one for the registered tokens and one for the tenants' values, and what the
//! operations of the library read from them and do to them.
//!
//! The engine keeps bytes. Every key and value that this library writes is the
//! UTF-8 encoding of a string, so the model speaks of strings through
//! `encode_utf8` and `decode_utf8`.

use vstd::prelude::*;
use vstd::utf8::{decode_utf8, encode_utf8, valid_utf8};
use crate::keys::{composite_of, marker_of, tenant_keys};

verus! {

/// The contents of the two partitions of a store.
pub struct DbView {
    /// The token partition: one marker entry for each registered token.
    pub tokens: Map<Seq<u8>, Seq<u8>>,
    /// The value partition: one entry for each pair of a token and a key.
    pub values: Map<Seq<u8>, Seq<u8>>,
}

impl DbView {
    /// Both partitions hold finitely many entries.
    pub open spec fn wf(self) -> bool {
        self.tokens.dom().finite() && self.values.dom().finite()
    }

    /// The store with nothing in it.
    pub open spec fn empty() -> DbView {
        DbView { tokens: Map::empty(), values: Map::empty() }
    }

    /// The store after `value` was written under `key` in the token partition.
    pub open spec fn set_token(self, key: Seq<char>, value: Seq<char>) -> DbView {
        DbView { tokens: self.tokens.insert(encode_utf8(key), encode_utf8(value)), values: self.values }
    }

    /// The store after `value` was written under `key` in the value partition.
    pub open spec fn set_value(self, key: Seq<char>, value: Seq<char>) -> DbView {
        DbView { tokens: self.tokens, values: self.values.insert(encode_utf8(key), encode_utf8(value)) }
    }

    /// Whether `token` has been registered: whether its marker is present.
    pub open spec fn registered(self, token: Seq<char>) -> bool {
        self.tokens.contains_key(encode_utf8(marker_of(token)))
    }

    /// The store after `token` was registered. The marker's value is the marker itself.
    pub open spec fn with_token(self, token: Seq<char>) -> DbView {
        self.set_token(marker_of(token), marker_of(token))
    }

    /// Whether an entry exists for `key` under `token`.
    pub open spec fn has_key(self, token: Seq<char>, key: Seq<char>) -> bool {
        self.values.contains_key(encode_utf8(composite_of(token, key)))
    }

    /// The text kept for `key` under `token`, if there is an entry and it is text.
    pub open spec fn stored(self, token: Seq<char>, key: Seq<char>) -> Option<Seq<char>> {
        let raw = encode_utf8(composite_of(token, key));
        if self.values.contains_key(raw) && valid_utf8(self.values[raw]) {
            Some(decode_utf8(self.values[raw]))
        } else {
            None
        }
    }

    /// The store after `text` was written for `key` under `token`.
    pub open spec fn with_value(self, token: Seq<char>, key: Seq<char>, text: Seq<char>) -> DbView {
        self.set_value(composite_of(token, key), text)
    }

    /// The keys that have an entry under `token`.
    pub open spec fn keys_of(self, token: Seq<char>) -> Set<Seq<char>> {
        Set::new(|key: Seq<char>| self.has_key(token, key))
    }

    /// The number of entries of the token partition.
    pub open spec fn token_count(self) -> nat {
        self.tokens.dom().len()
    }

    /// The number of entries of the value partition.
    pub open spec fn value_count(self) -> nat {
        self.values.dom().len()
    }

    /// Nothing that `earlier` held has gone: every raw key of either partition
    /// is still there.
    pub open spec fn extends(self, earlier: DbView) -> bool {
        &&& earlier.tokens.dom().subset_of(self.tokens.dom())
        &&& earlier.values.dom().subset_of(self.values.dom())
    }
}

/// What a reader sees for `key` under `token` when the store answers: the text
/// kept there if the token is registered and has such an entry, else nothing.
pub open spec fn read_of(v: DbView, token: Seq<char>, key: Seq<char>) -> Seq<char> {
    if v.registered(token) {
        match v.stored(token, key) {
            Some(text) => text,
            None => Seq::empty(),
        }
    } else {
        Seq::empty()
    }
}

/// Strict lexicographic order on byte strings, the order in which the engine
/// keeps and walks its keys.
pub open spec fn bytes_before(a: Seq<u8>, b: Seq<u8>) -> bool
    decreases a.len(),
{
    if b.len() == 0 {
        false
    } else if a.len() == 0 {
        true
    } else if a[0] != b[0] {
        a[0] < b[0]
    } else {
        bytes_before(a.drop_first(), b.drop_first())
    }
}

/// `keys` are the keys of a partition, each once, in the engine's order: every
/// listed string encodes a raw key, every raw key is the encoding of a listed
/// string, and the encodings ascend strictly.
pub open spec fn lists_in_order(raw: Set<Seq<u8>>, keys: Seq<Seq<char>>) -> bool {
    &&& forall|i: int| 0 <= i < keys.len() ==> raw.contains(#[trigger] encode_utf8(keys[i]))
    &&& forall|r: Seq<u8>| #[trigger]
        raw.contains(r) ==> exists|i: int| 0 <= i < keys.len() && #[trigger] encode_utf8(keys[i]) == r
    &&& forall|i: int, j: int|
        0 <= i < j < keys.len() ==> bytes_before(
            #[trigger] encode_utf8(keys[i]),
            #[trigger] encode_utf8(keys[j]),
        )
}

/// The keys of a partition in the engine's order, where all of them are text.
pub open spec fn ordered_keys(raw: Set<Seq<u8>>) -> Seq<Seq<char>> {
    choose|keys: Seq<Seq<char>>| lists_in_order(raw, keys)
}

/// The keys that `token` owns, in the engine's order, each without the tenant's
/// prefix: what a listing shows.
pub open spec fn listing_of(v: DbView, token: Seq<char>) -> Seq<Seq<char>> {
    tenant_keys(ordered_keys(v.values.dom()), token)
}

/// No byte string comes before itself.
pub proof fn lemma_bytes_before_irreflexive(a: Seq<u8>)
    ensures
        !bytes_before(a, a),
    decreases a.len(),
{
    if a.len() > 0 {
        lemma_bytes_before_irreflexive(a.drop_first());
    }
}

/// Of two byte strings, at most one comes before the other.
pub proof fn lemma_bytes_before_asymmetric(a: Seq<u8>, b: Seq<u8>)
    requires
        bytes_before(a, b),
    ensures
        !bytes_before(b, a),
    decreases a.len(),
{
    if a.len() > 0 && b.len() > 0 && a[0] == b[0] {
        lemma_bytes_before_asymmetric(a.drop_first(), b.drop_first());
    }
}

/// Different strings have different encodings.
pub proof fn lemma_encode_injective(a: Seq<char>, b: Seq<char>)
    requires
        encode_utf8(a) == encode_utf8(b),
    ensures
        a == b,
{
    vstd::utf8::encode_utf8_decode_utf8(a);
    vstd::utf8::encode_utf8_decode_utf8(b);
}

/// A listing in the engine's order names no key twice, and has as many items
/// as the partition has entries.
pub proof fn lemma_listing_counts(raw: Set<Seq<u8>>, keys: Seq<Seq<char>>)
    requires
        lists_in_order(raw, keys),
    ensures
        keys.no_duplicates(),
        raw.finite(),
        raw.len() == keys.len(),
{
    let enc = keys.map_values(|k: Seq<char>| encode_utf8(k));
    assert forall|i: int, j: int| 0 <= i < enc.len() && 0 <= j < enc.len() && i != j implies enc[i]
        != enc[j] by {
        lemma_bytes_before_irreflexive(enc[i]);
        if i < j {
            assert(bytes_before(encode_utf8(keys[i]), encode_utf8(keys[j])));
        } else {
            assert(bytes_before(encode_utf8(keys[j]), encode_utf8(keys[i])));
        }
    }
    assert(enc.no_duplicates());
    assert forall|i: int, j: int| 0 <= i < keys.len() && 0 <= j < keys.len() && i != j implies keys[i]
        != keys[j] by {
        assert(enc[i] != enc[j]);
    }
    assert(enc.to_set() =~= raw) by {
        assert forall|r: Seq<u8>| enc.to_set().contains(r) implies raw.contains(r) by {
            let i = choose|i: int| 0 <= i < enc.len() && enc[i] == r;
            assert(raw.contains(encode_utf8(keys[i])));
        }
        assert forall|r: Seq<u8>| raw.contains(r) implies enc.to_set().contains(r) by {
            let i = choose|i: int| 0 <= i < keys.len() && encode_utf8(keys[i]) == r;
            assert(enc[i] == r);
        }
    }
    enc.unique_seq_to_set();
    vstd::seq_lib::seq_to_set_is_finite(enc);
}

proof fn lemma_listings_agree_at(raw: Set<Seq<u8>>, a: Seq<Seq<char>>, b: Seq<Seq<char>>, i: int)
    requires
        lists_in_order(raw, a),
        lists_in_order(raw, b),
        0 <= i < a.len(),
        a.len() == b.len(),
    ensures
        a[i] == b[i],
    decreases i,
{
    assert forall|k: int| 0 <= k < i implies a[k] == b[k] by {
        lemma_listings_agree_at(raw, a, b, k);
    }
    let ea = encode_utf8(a[i]);
    let eb = encode_utf8(b[i]);
    assert(raw.contains(ea));
    assert(raw.contains(eb));
    let j = choose|j: int| 0 <= j < b.len() && encode_utf8(b[j]) == ea;
    let m = choose|m: int| 0 <= m < a.len() && encode_utf8(a[m]) == eb;
    lemma_bytes_before_irreflexive(ea);
    lemma_bytes_before_irreflexive(eb);
    if j < i {
        assert(b[j] == a[j]);
        assert(bytes_before(encode_utf8(a[j]), encode_utf8(a[i])));
    }
    if m < i {
        assert(a[m] == b[m]);
        assert(bytes_before(encode_utf8(b[m]), encode_utf8(b[i])));
    }
    if j > i {
        assert(bytes_before(encode_utf8(b[i]), encode_utf8(b[j])));
        if m > i {
            assert(bytes_before(encode_utf8(a[i]), encode_utf8(a[m])));
            lemma_bytes_before_asymmetric(eb, ea);
        }
    }
    lemma_encode_injective(a[i], b[i]);
}

/// A partition has one listing in the engine's order at most: a successful
/// scan returns `ordered_keys`.
pub proof fn lemma_listing_unique(raw: Set<Seq<u8>>, keys: Seq<Seq<char>>)
    requires
        lists_in_order(raw, keys),
    ensures
        keys == ordered_keys(raw),
{
    let other = ordered_keys(raw);
    lemma_listing_counts(raw, keys);
    lemma_listing_counts(raw, other);
    assert forall|i: int| 0 <= i < keys.len() implies keys[i] == other[i] by {
        lemma_listings_agree_at(raw, keys, other, i);
    }
    assert(keys =~= other);
}

} // verus!
