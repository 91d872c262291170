//! The value store: reading, writing and listing the values that a tenant
//! keeps under its token.
//!
//! Every failure is answered with the empty string, whatever its cause: an
//! unknown token, a key or value that is refused, an entry that is not there,
//! a store that does not answer. Each operation comes twice. The one that takes
//! `known` is told what the registry said of the token, and its contract says
//! what follows from that; the one named as the client calls it asks the
//! registry first.

use vstd::prelude::*;
use vstd::utf8::{decode_utf8, valid_utf8};
use crate::keys::{composite_key, is_valid_key, strip_tenant, tenant_keys, validate_key};
use crate::model::{lemma_listing_unique, listing_of};
use crate::registry::token_exist;
use crate::store::Db;
use crate::text::{bracketed, bracketed_list, texts};

verus! {

/// `String::from_utf8`, with the error dropped.
///
/// Trusted: the bytes are accepted exactly when they are well-formed UTF-8, and
/// the string is then what they decode to.
#[verifier::external_body]
fn string_from_utf8(bytes: Vec<u8>) -> (r: Option<String>)
    ensures
        r is Some <==> valid_utf8(bytes@),
        r matches Some(text) ==> text@ == decode_utf8(bytes@),
{
    String::from_utf8(bytes).ok()
}

/// What a read is answered with, given what the store returned for the entry:
/// the text where there is one, nothing where there is none or the store failed.
pub fn value_or_empty(fetched: Option<Option<String>>) -> (value: String)
    ensures
        value@ == match fetched {
            Some(Some(text)) => text@,
            _ => Seq::<char>::empty(),
        },
{
    match fetched {
        Some(Some(text)) => text,
        _ => String::new(),
    }
}

/// What a write is answered with, given whether the store confirmed it: the key
/// as an echo, or nothing.
pub fn echo_or_empty(stored: bool, key: String) -> (echo: String)
    ensures
        echo@ == if stored {
            key@
        } else {
            Seq::<char>::empty()
        },
{
    if stored {
        key
    } else {
        String::new()
    }
}

/// What a listing is answered with, given the stored keys that a scan of the
/// value partition returned: the tenant's keys in brackets, or nothing where
/// the scan failed.
pub fn render_listing(scan: Option<Vec<String>>, token: &str) -> (list: String)
    ensures
        list@ == match scan {
            Some(stored) => bracketed(tenant_keys(texts(stored@), token@)),
            None => Seq::<char>::empty(),
        },
{
    match scan {
        Some(stored) => {
            let keys = strip_tenant(&stored, token);
            bracketed_list(&keys)
        },
        None => String::new(),
    }
}

/// Reads the value of `k` under `t`, for a token of which the registry said
/// `known`. Nothing is read for a token that is not known.
pub fn read_value(db: &Db, known: bool, t: &str, k: &str) -> (value: String)
    ensures
        !known ==> value@.len() == 0,
        value@.len() == 0 || db@.stored(t@, k@) == Some(value@),
{
    if !known {
        return String::new();
    }
    let stored_key = composite_key(t, k);
    let fetched = db.value_entry(&stored_key);
    proof {
        if fetched is Some && fetched->0 is Some {
            let text = fetched->0->0@;
            vstd::utf8::encode_utf8_valid_utf8(text);
            vstd::utf8::encode_utf8_decode_utf8(text);
        }
    }
    value_or_empty(fetched)
}

/// Writes `value` for `key` under `token`, for a token of which the registry
/// said `known`. The write is refused, and the store left alone, unless the
/// token is known, the key is valid and the value is UTF-8 text.
pub fn write_value(db: &mut Db, known: bool, token: &str, key: String, value: Vec<u8>) -> (echo:
    String)
    ensures
        !(known && is_valid_key(key@) && valid_utf8(value@)) ==> echo@.len() == 0 && final(db)@
            == old(db)@,
        echo@.len() > 0 ==> echo@ == key@ && final(db)@ == old(db)@.with_value(
            token@,
            key@,
            decode_utf8(value@),
        ),
        echo@.len() == 0 ==> final(db)@ == old(db)@ || final(db)@ == old(db)@.with_value(
            token@,
            key@,
            decode_utf8(value@),
        ),
        old(db)@.wf() ==> final(db)@.wf(),
        final(db)@.extends(old(db)@),
{
    if !known || !validate_key(key.as_str()) {
        return String::new();
    }
    let text = match string_from_utf8(value) {
        Some(text) => text,
        None => {
            return String::new();
        },
    };
    let stored_key = composite_key(token, key.as_str());
    let stored = db.put_value_entry(&stored_key, &text);
    echo_or_empty(stored, key)
}

/// Lists the keys of `token`, for a token of which the registry said `known`.
/// Nothing is listed for a token that is not known.
///
/// The whole value partition is walked for one listing: the cost grows with
/// the entries of all tenants together.
pub fn list_tenant_keys(db: &Db, known: bool, token: &str) -> (list: String)
    ensures
        !known ==> list@.len() == 0,
        list@.len() == 0 || list@ == bracketed(listing_of(db@, token@)),
{
    if !known {
        return String::new();
    }
    let scan = db.value_entry_keys();
    proof {
        if scan is Some {
            lemma_listing_unique(db@.values.dom(), texts(scan->0@));
        }
    }
    render_listing(scan, token)
}

/// The value that `t` keeps under `k`, or the empty string: where the token is
/// not registered, where no such entry exists, and where the store fails.
pub fn get_value(db: &Db, t: String, k: String) -> (value: String)
    ensures
        value@.len() == 0 || db@.stored(t@, k@) == Some(value@),
{
    let known = token_exist(db, t.as_str());
    read_value(db, known, t.as_str(), k.as_str())
}

/// Stores `value` for `key` under `token` and echoes the key, or returns the
/// empty string: where the token is not registered, the key is not valid, the
/// value is not UTF-8 text, or the store fails. An earlier value of the same
/// key is overwritten.
pub fn post_value(db: &mut Db, token: String, key: String, value: Vec<u8>) -> (echo: String)
    ensures
        !(is_valid_key(key@) && valid_utf8(value@)) ==> echo@.len() == 0 && final(db)@ == old(
            db,
        )@,
        echo@.len() > 0 ==> echo@ == key@ && final(db)@ == old(db)@.with_value(
            token@,
            key@,
            decode_utf8(value@),
        ),
        echo@.len() == 0 ==> final(db)@ == old(db)@ || final(db)@ == old(db)@.with_value(
            token@,
            key@,
            decode_utf8(value@),
        ),
        old(db)@.wf() ==> final(db)@.wf(),
        final(db)@.extends(old(db)@),
{
    let known = token_exist(db, token.as_str());
    write_value(db, known, token.as_str(), key, value)
}

/// The keys of `token` in brackets, separated by a comma and a space, in the
/// order of the engine; or the empty string, where the token is not registered
/// or the store fails.
pub fn list_keys(db: &Db, token: String) -> (list: String)
    ensures
        list@.len() == 0 || list@ == bracketed(listing_of(db@, token@)),
{
    let known = token_exist(db, token.as_str());
    list_tenant_keys(db, known, token.as_str())
}

} // verus!
