//! What holds of the store across operations, proved over the model that the
//! contracts of the operations are written in.
//!
//! The operations change a store in two ways only: `with_token`, which a
//! confirmed registration does, and `with_value`, which a confirmed write does.
//! The laws below say what each of the two does to what the other operations
//! read.

use vstd::prelude::*;
use vstd::utf8::encode_utf8;
use crate::keys::{
    composite_of, lemma_alnum_has_no_dash, lemma_composite_injective_in_key,
    lemma_dashless_tokens_apart, lemma_marker_injective, lemma_overlap_shares_key,
    lemma_shared_key_needs_overlap, lemma_tenant_keys_distinct, lemma_tenant_keys_members,
    marker_of, regions_apart, tenant_prefix,
};
use crate::model::{
    lemma_encode_injective, lemma_listing_counts, lemma_listing_unique, listing_of, lists_in_order,
    ordered_keys, read_of, DbView,
};
use crate::registry::{is_token, presumed_present};

verus! {

/// A token is registered once its registration is confirmed.
pub proof fn law_registered_after_register(v: DbView, token: Seq<char>)
    ensures
        v.with_token(token).registered(token),
        presumed_present(Some(v.with_token(token).registered(token))),
{
}

/// Registering one token says nothing of another: a different token is
/// registered afterwards exactly when it was before.
pub proof fn law_register_leaves_others(v: DbView, token: Seq<char>, other: Seq<char>)
    requires
        token != other,
    ensures
        v.with_token(token).registered(other) == v.registered(other),
{
    if encode_utf8(marker_of(token)) == encode_utf8(marker_of(other)) {
        lemma_encode_injective(marker_of(token), marker_of(other));
        lemma_marker_injective(token, other);
    }
}

/// Both changes that the operations make keep what was there.
pub proof fn law_changes_extend(v: DbView, token: Seq<char>, key: Seq<char>, text: Seq<char>)
    ensures
        v.extends(v),
        v.with_token(token).extends(v),
        v.with_value(token, key, text).extends(v),
{
}

/// Keeping what was there carries over any number of operations.
pub proof fn law_extends_transitive(a: DbView, b: DbView, c: DbView)
    requires
        b.extends(a),
        c.extends(b),
    ensures
        c.extends(a),
{
    assert forall|raw: Seq<u8>| a.tokens.dom().contains(raw) implies c.tokens.dom().contains(
        raw,
    ) by {
        assert(b.tokens.dom().contains(raw));
    }
    assert forall|raw: Seq<u8>| a.values.dom().contains(raw) implies c.values.dom().contains(
        raw,
    ) by {
        assert(b.values.dom().contains(raw));
    }
}

/// A registered token stays registered: in every later state of the store, and
/// so for as long as the store lives, it is taken to exist whatever a lookup
/// returns, an answer or a failure.
pub proof fn law_registration_lasts(
    earlier: DbView,
    later: DbView,
    token: Seq<char>,
    lookup: Option<bool>,
)
    requires
        earlier.registered(token),
        later.extends(earlier),
        lookup matches Some(found) ==> found == later.registered(token),
    ensures
        later.registered(token),
        presumed_present(lookup),
{
}

/// What was written is what is read: after a confirmed write the entry holds
/// the text, and a reader with a registered token gets it back exactly. A
/// second write to the same key replaces the first.
pub proof fn law_read_after_write(v: DbView, token: Seq<char>, key: Seq<char>, text: Seq<char>)
    ensures
        v.with_value(token, key, text).stored(token, key) == Some(text),
        v.registered(token) ==> read_of(v.with_value(token, key, text), token, key) == text,
        forall|earlier: Seq<char>|
            v.with_value(token, key, earlier).with_value(token, key, text) == v.with_value(
                token,
                key,
                text,
            ),
{
    vstd::utf8::encode_utf8_valid_utf8(text);
    vstd::utf8::encode_utf8_decode_utf8(text);
    let raw = encode_utf8(composite_of(token, key));
    assert forall|earlier: Seq<char>|
        v.with_value(token, key, earlier).with_value(token, key, text) == v.with_value(
            token,
            key,
            text,
        ) by {
        assert(v.values.insert(raw, encode_utf8(earlier)).insert(raw, encode_utf8(text))
            =~= v.values.insert(raw, encode_utf8(text)));
    }
}

/// A key that has no entry reads as nothing, and in the empty store no key has
/// an entry.
pub proof fn law_unwritten_reads_empty(v: DbView, token: Seq<char>, key: Seq<char>)
    ensures
        !v.has_key(token, key) ==> v.stored(token, key) is None && read_of(v, token, key)
            == Seq::<char>::empty(),
        !DbView::empty().has_key(token, key),
        read_of(DbView::empty(), token, key) == Seq::<char>::empty(),
{
}

/// An entry comes into being through a write to its own stored key only.
pub proof fn law_entry_needs_write(
    v: DbView,
    writer: Seq<char>,
    written: Seq<char>,
    text: Seq<char>,
    token: Seq<char>,
    key: Seq<char>,
)
    ensures
        v.with_value(writer, written, text).has_key(token, key) <==> v.has_key(token, key)
            || composite_of(writer, written) == composite_of(token, key),
        v.with_token(writer).has_key(token, key) == v.has_key(token, key),
{
    if encode_utf8(composite_of(writer, written)) == encode_utf8(composite_of(token, key)) {
        lemma_encode_injective(composite_of(writer, written), composite_of(token, key));
    }
}

/// A token that is not taken to exist neither reads nor changes anything, and a
/// lookup that answered `false` is such a token.
pub proof fn law_unknown_token_is_refused()
    ensures
        !presumed_present(Some(false)),
        presumed_present(Some(true)),
        presumed_present(None),
{
}

/// Tenants are isolated. A write under one token leaves what every other token
/// reads as it was, for all keys on either side, where the regions of the two
/// tokens are apart.
pub proof fn law_isolation(
    v: DbView,
    writer: Seq<char>,
    written: Seq<char>,
    text: Seq<char>,
    reader: Seq<char>,
    key: Seq<char>,
)
    requires
        writer != reader,
        regions_apart(writer, reader),
    ensures
        composite_of(writer, written) != composite_of(reader, key),
        v.with_value(writer, written, text).stored(reader, key) == v.stored(reader, key),
        v.with_value(writer, written, text).has_key(reader, key) == v.has_key(reader, key),
        read_of(v.with_value(writer, written, text), reader, key) == read_of(v, reader, key),
{
    if composite_of(writer, written) == composite_of(reader, key) {
        lemma_shared_key_needs_overlap(writer, written, reader, key);
    }
    if encode_utf8(composite_of(writer, written)) == encode_utf8(composite_of(reader, key)) {
        lemma_encode_injective(composite_of(writer, written), composite_of(reader, key));
    }
}

/// The condition of the isolation law cannot be dropped. Where one token
/// followed by a dash begins another, a write under the longer token is read
/// under the shorter one, with a key that holds the rest of the longer token.
pub proof fn law_overlap_is_shared(
    v: DbView,
    short: Seq<char>,
    long: Seq<char>,
    key: Seq<char>,
    text: Seq<char>,
)
    requires
        tenant_prefix(short).is_prefix_of(long),
    ensures
        short != long,
        !regions_apart(short, long),
        v.with_value(long, key, text).stored(short, long.skip(short.len() as int + 1) + seq!['-'] + key)
            == Some(text),
{
    lemma_overlap_shares_key(short, long, key);
    law_read_after_write(v, long, key, text);
}

/// Generated tokens are always apart: two different tokens of digits and
/// letters never see each other's values.
pub proof fn law_generated_tokens_isolated(
    v: DbView,
    writer: Seq<char>,
    written: Seq<char>,
    text: Seq<char>,
    reader: Seq<char>,
    key: Seq<char>,
)
    requires
        is_token(writer),
        is_token(reader),
        writer != reader,
    ensures
        regions_apart(writer, reader),
        read_of(v.with_value(writer, written, text), reader, key) == read_of(v, reader, key),
{
    lemma_alnum_has_no_dash(writer);
    lemma_alnum_has_no_dash(reader);
    lemma_dashless_tokens_apart(writer, reader);
    law_isolation(v, writer, written, text, reader, key);
}

/// A listing shows the keys of the tenant, all of them and each once: the keys
/// that have an entry under the token.
pub proof fn law_listing_is_keys(v: DbView, token: Seq<char>, scan: Seq<Seq<char>>)
    requires
        lists_in_order(v.values.dom(), scan),
    ensures
        scan == ordered_keys(v.values.dom()),
        listing_of(v, token).no_duplicates(),
        listing_of(v, token).to_set() == v.keys_of(token),
{
    lemma_listing_unique(v.values.dom(), scan);
    lemma_listing_counts(v.values.dom(), scan);
    lemma_tenant_keys_distinct(scan, token);
    assert forall|key: Seq<char>| listing_of(v, token).to_set().contains(key) == v.keys_of(
        token,
    ).contains(key) by {
        lemma_tenant_keys_members(scan, token, key);
        let wanted = composite_of(token, key);
        if scan.contains(wanted) {
            let i = choose|i: int| 0 <= i < scan.len() && scan[i] == wanted;
            assert(v.values.dom().contains(encode_utf8(scan[i])));
        }
        if v.has_key(token, key) {
            let raw = encode_utf8(wanted);
            assert(v.values.dom().contains(raw));
            let i = choose|i: int| 0 <= i < scan.len() && encode_utf8(scan[i]) == raw;
            lemma_encode_injective(scan[i], wanted);
            assert(scan[i] == wanted);
        }
    }
    assert(listing_of(v, token).to_set() =~= v.keys_of(token));
}

/// A write adds its key to the keys of its tenant and nothing else, and leaves
/// the keys of every tenant whose region is apart as they were.
pub proof fn law_keys_after_write(
    v: DbView,
    writer: Seq<char>,
    written: Seq<char>,
    text: Seq<char>,
    other: Seq<char>,
)
    ensures
        v.with_value(writer, written, text).keys_of(writer) == v.keys_of(writer).insert(written),
        writer != other && regions_apart(writer, other) ==> v.with_value(
            writer,
            written,
            text,
        ).keys_of(other) == v.keys_of(other),
        v.with_token(other).keys_of(writer) == v.keys_of(writer),
{
    let after = v.with_value(writer, written, text);
    assert forall|key: Seq<char>| after.keys_of(writer).contains(key) == v.keys_of(writer).insert(
        written,
    ).contains(key) by {
        law_entry_needs_write(v, writer, written, text, writer, key);
        if composite_of(writer, written) == composite_of(writer, key) {
            lemma_composite_injective_in_key(writer, written, key);
        }
    }
    assert(after.keys_of(writer) =~= v.keys_of(writer).insert(written));
    if writer != other && regions_apart(writer, other) {
        assert forall|key: Seq<char>| after.keys_of(other).contains(key) == v.keys_of(
            other,
        ).contains(key) by {
            law_isolation(v, writer, written, text, other, key);
        }
        assert(after.keys_of(other) =~= v.keys_of(other));
    }
    assert(v.with_token(other).keys_of(writer) =~= v.keys_of(writer));
}

/// The keys of a tenant never shrink: there is no deletion.
pub proof fn law_keys_never_shrink(earlier: DbView, later: DbView, token: Seq<char>)
    requires
        later.extends(earlier),
    ensures
        earlier.keys_of(token).subset_of(later.keys_of(token)),
{
}

/// The counts follow the entries. A registration adds one to the token count
/// where the token is new and nothing where it is not; a write adds one to the
/// value count where the key is new for the tenant and nothing where it
/// overwrites. Neither touches the other count, and the empty store counts
/// zero of both.
pub proof fn law_counts(v: DbView, token: Seq<char>, key: Seq<char>, text: Seq<char>)
    requires
        v.wf(),
    ensures
        v.with_token(token).wf(),
        v.with_value(token, key, text).wf(),
        v.with_token(token).token_count() == v.token_count() + if v.registered(token) {
            0nat
        } else {
            1nat
        },
        v.with_token(token).value_count() == v.value_count(),
        v.with_value(token, key, text).value_count() == v.value_count() + if v.has_key(token, key) {
            0nat
        } else {
            1nat
        },
        v.with_value(token, key, text).token_count() == v.token_count(),
        DbView::empty().wf(),
        DbView::empty().token_count() == 0,
        DbView::empty().value_count() == 0,
{
    let marker = encode_utf8(marker_of(token));
    let raw = encode_utf8(composite_of(token, key));
    assert(v.with_token(token).tokens.dom() =~= v.tokens.dom().insert(marker));
    assert(v.with_value(token, key, text).values.dom() =~= v.values.dom().insert(raw));
    assert(DbView::empty().tokens.dom() =~= Set::<Seq<u8>>::empty());
    assert(DbView::empty().values.dom() =~= Set::<Seq<u8>>::empty());
}

} // verus!
