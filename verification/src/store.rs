//! The embedded store behind the library: two partitions of a `kv` store, one
//! for the registered tokens and one for the tenants' values.
//!
//! The engine is not verified. What this module believes of it is written in the
//! contracts of the trusted functions below, over `partition_entries`; all else
//! in the library is proved from those contracts. They describe a partition that
//! is written through one handle only: `Db::open` takes the store over, and no
//! copy of it may be written through while the `Db` lives.

use vstd::prelude::*;
use vstd::utf8::encode_utf8;
use crate::model::{lists_in_order, DbView};
use crate::text::texts;

verus! {

#[verifier::external_type_specification]
#[verifier::external_body]
pub struct ExStore(kv::Store);

#[verifier::external_type_specification]
#[verifier::external_body]
pub struct ExStoreError(kv::Error);

/// One partition of the store: a `kv::Bucket` with string keys and string values.
#[verifier::external_body]
pub struct Partition {
    bucket: kv::Bucket<'static, String, String>,
}

/// The raw entries that a partition holds: the bytes of each key with the bytes
/// of its value.
pub uninterp spec fn partition_entries(p: Partition) -> Map<Seq<u8>, Seq<u8>>;

/// `kv::Store::bucket`, for string keys and string values.
///
/// Trusted: the partition that is opened holds finitely many entries. Nothing
/// is said of which, and the call may fail.
#[verifier::external_body]
fn open_bucket(store: &kv::Store, name: &str) -> (r: Result<Partition, kv::Error>)
    ensures
        r matches Ok(p) ==> partition_entries(p).dom().finite(),
{
    store.bucket::<String, String>(Some(name)).map(|bucket| Partition { bucket })
}

/// `kv::Bucket::contains`.
///
/// Trusted: an answer tells whether the bytes of `key` are a raw key of the
/// partition. The call may fail instead.
#[verifier::external_body]
fn partition_contains(p: &Partition, key: &String) -> (r: Result<bool, kv::Error>)
    ensures
        r matches Ok(found) ==> found == partition_entries(*p).contains_key(encode_utf8(key@)),
{
    p.bucket.contains(key)
}

/// `kv::Bucket::get`.
///
/// Trusted: a value that comes back is the text whose bytes are kept under the
/// bytes of `key`, and `None` comes back only where no entry is. The call fails
/// on a fault of the engine and where the value kept is not text.
#[verifier::external_body]
fn partition_get(p: &Partition, key: &String) -> (r: Result<Option<String>, kv::Error>)
    ensures
        r matches Ok(Some(text)) ==> partition_entries(*p).contains_key(encode_utf8(key@))
            && partition_entries(*p)[encode_utf8(key@)] == encode_utf8(text@),
        r matches Ok(None) ==> !partition_entries(*p).contains_key(encode_utf8(key@)),
{
    p.bucket.get(key)
}

/// `kv::Bucket::set`; the earlier value that the call hands back is dropped.
///
/// Trusted: after success the partition maps the bytes of `key` to the bytes of
/// `value` and is otherwise as before. After a failure it is either as before
/// or changed in that same way: the engine may fail before or after it has
/// taken the entry, and never touches another one.
#[verifier::external_body]
fn partition_set(p: &mut Partition, key: &String, value: &String) -> (r: Result<(), kv::Error>)
    ensures
        r is Ok ==> partition_entries(*final(p)) == partition_entries(*old(p)).insert(
            encode_utf8(key@),
            encode_utf8(value@),
        ),
        r is Err ==> partition_entries(*final(p)) == partition_entries(*old(p))
            || partition_entries(*final(p)) == partition_entries(*old(p)).insert(
            encode_utf8(key@),
            encode_utf8(value@),
        ),
{
    p.bucket.set(key, value).map(|_| ())
}

/// `kv::Bucket::iter`, with `kv::Item::key` on each item.
///
/// Trusted: a list that comes back names every raw key of the partition once,
/// as text, in ascending order of the bytes. The call fails on the first item
/// that the engine cannot read or whose key is not text.
#[verifier::external_body]
fn partition_keys(p: &Partition) -> (r: Result<Vec<String>, kv::Error>)
    ensures
        r matches Ok(keys) ==> lists_in_order(partition_entries(*p).dom(), texts(keys@)),
{
    p.bucket.iter().map(|entry| entry.and_then(|item| item.key::<String>())).collect()
}

/// What the library makes of an answer of the engine: the value where the
/// engine answered, nothing where it failed. Which failure it was is dropped;
/// every caller answers a failure in one and the same way.
pub fn answered<T>(outcome: Result<T, kv::Error>) -> (r: Option<T>)
    ensures
        outcome matches Ok(value) ==> r == Some(value),
        outcome is Err ==> r is None,
{
    match outcome {
        Ok(value) => Some(value),
        Err(_) => None,
    }
}

/// Whether the engine confirmed a write.
pub fn confirmed(outcome: Result<(), kv::Error>) -> (ok: bool)
    ensures
        ok == outcome is Ok,
{
    match outcome {
        Ok(_) => true,
        Err(_) => false,
    }
}

/// A store opened for the library: its token partition and its value
/// partition, and the store itself, which is kept for as long as they are used.
pub struct Db {
    #[allow(dead_code)]
    store: kv::Store,
    tokens: Partition,
    values: Partition,
}

impl View for Db {
    type V = DbView;

    closed spec fn view(&self) -> DbView {
        DbView { tokens: partition_entries(self.tokens), values: partition_entries(self.values) }
    }
}

impl Db {
    /// Opens the two partitions of `store`, `token` and `values`. `None` where
    /// the engine refuses either.
    pub fn open(store: kv::Store) -> (r: Option<Db>)
        ensures
            r matches Some(db) ==> db@.wf(),
    {
        let tokens = match answered(open_bucket(&store, "token")) {
            Some(p) => p,
            None => {
                return None;
            },
        };
        let values = match answered(open_bucket(&store, "values")) {
            Some(p) => p,
            None => {
                return None;
            },
        };
        Some(Db { store, tokens, values })
    }

    /// Asks the token partition whether it holds `key`. `None` where the engine fails.
    pub fn token_entry_present(&self, key: &String) -> (r: Option<bool>)
        ensures
            r matches Some(found) ==> found == self@.tokens.contains_key(encode_utf8(key@)),
    {
        answered(partition_contains(&self.tokens, key))
    }

    /// Writes `value` under `key` in the token partition, and says whether the
    /// engine confirmed it.
    pub fn put_token_entry(&mut self, key: &String, value: &String) -> (ok: bool)
        ensures
            old(self)@.wf() ==> final(self)@.wf(),
            final(self)@.extends(old(self)@),
            ok ==> final(self)@ == old(self)@.set_token(key@, value@),
            !ok ==> final(self)@ == old(self)@ || final(self)@ == old(self)@.set_token(
                key@,
                value@,
            ),
    {
        confirmed(partition_set(&mut self.tokens, key, value))
    }

    /// Reads the text kept under `key` in the value partition. The outer `None`
    /// where the engine fails or what is kept is not text, the inner where no
    /// entry is.
    pub fn value_entry(&self, key: &String) -> (r: Option<Option<String>>)
        ensures
            r matches Some(Some(text)) ==> self@.values.contains_key(encode_utf8(key@))
                && self@.values[encode_utf8(key@)] == encode_utf8(text@),
            r matches Some(None) ==> !self@.values.contains_key(encode_utf8(key@)),
    {
        answered(partition_get(&self.values, key))
    }

    /// Writes `value` under `key` in the value partition, and says whether the
    /// engine confirmed it.
    pub fn put_value_entry(&mut self, key: &String, value: &String) -> (ok: bool)
        ensures
            old(self)@.wf() ==> final(self)@.wf(),
            final(self)@.extends(old(self)@),
            ok ==> final(self)@ == old(self)@.set_value(key@, value@),
            !ok ==> final(self)@ == old(self)@ || final(self)@ == old(self)@.set_value(
                key@,
                value@,
            ),
    {
        confirmed(partition_set(&mut self.values, key, value))
    }

    /// The keys of the token partition in the engine's order. `None` where the
    /// engine fails or a key is not text.
    pub fn token_entry_keys(&self) -> (r: Option<Vec<String>>)
        ensures
            r matches Some(keys) ==> lists_in_order(self@.tokens.dom(), texts(keys@)),
    {
        answered(partition_keys(&self.tokens))
    }

    /// The keys of the value partition in the engine's order. `None` where the
    /// engine fails or a key is not text.
    pub fn value_entry_keys(&self) -> (r: Option<Vec<String>>)
        ensures
            r matches Some(keys) ==> lists_in_order(self@.values.dom(), texts(keys@)),
    {
        answered(partition_keys(&self.values))
    }
}

} // verus!
