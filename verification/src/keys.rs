//! The keys under which the store keeps its entries, and the rule that decides
//! which client keys may be written.
//!
//! A registered token is remembered by a marker entry, `token-` followed by the
//! token. A value lives under the token, a dash and the client's key, so that
//! every tenant has its own region of one flat keyspace.

use vstd::prelude::*;
use crate::text::{all_alnum, has_alnum, is_alnum, starts_with, texts, to_chars};

verus! {

/// The pattern that a key is searched for: a run of one to a hundred ASCII
/// digits and letters.
pub const KEY_PATTERN: &'static str = "[0-9a-zA-Z]{1,100}";

/// The marker under which a token is registered.
pub open spec fn marker_of(token: Seq<char>) -> Seq<char> {
    seq!['t', 'o', 'k', 'e', 'n', '-'] + token
}

/// What every stored key of a tenant begins with: the token and a dash.
pub open spec fn tenant_prefix(token: Seq<char>) -> Seq<char> {
    token.push('-')
}

/// The stored key of a tenant's value.
pub open spec fn composite_of(token: Seq<char>, key: Seq<char>) -> Seq<char> {
    tenant_prefix(token) + key
}

/// The client key behind a stored key, if the stored key lies in the tenant's
/// region: the stored key without the tenant's prefix, removed once.
pub open spec fn tenant_key(token: Seq<char>, stored: Seq<char>) -> Option<Seq<char>> {
    if tenant_prefix(token).is_prefix_of(stored) {
        Some(stored.skip(tenant_prefix(token).len() as int))
    } else {
        None
    }
}

/// The client keys of one tenant among stored keys, in the order of the stored keys.
pub open spec fn tenant_keys(stored: Seq<Seq<char>>, token: Seq<char>) -> Seq<Seq<char>> {
    stored.filter_map(|s: Seq<char>| tenant_key(token, s))
}

/// A key may be written when it holds at least one ASCII digit or letter: the
/// key pattern is searched for, not matched against the whole key.
pub open spec fn is_valid_key(key: Seq<char>) -> bool {
    has_alnum(key)
}

/// Two tokens whose regions do not overlap: neither token followed by a dash
/// begins the other.
pub open spec fn regions_apart(a: Seq<char>, b: Seq<char>) -> bool {
    !tenant_prefix(a).is_prefix_of(b) && !tenant_prefix(b).is_prefix_of(a)
}

/// A token's own stored keys give back the client key.
pub proof fn lemma_tenant_key_of_composite(token: Seq<char>, key: Seq<char>)
    ensures
        tenant_key(token, composite_of(token, key)) == Some(key),
{
    let p = tenant_prefix(token);
    let c = composite_of(token, key);
    assert(c.subrange(0, p.len() as int) =~= p);
    assert(c.skip(p.len() as int) =~= key);
}

/// A stored key lies in a tenant's region exactly when it is the composite of
/// the token and the client key found behind it.
pub proof fn lemma_tenant_key_is_composite(token: Seq<char>, stored: Seq<char>, key: Seq<char>)
    ensures
        tenant_key(token, stored) == Some(key) <==> stored == composite_of(token, key),
{
    let p = tenant_prefix(token);
    if tenant_key(token, stored) == Some(key) {
        assert(stored =~= stored.subrange(0, p.len() as int) + stored.skip(p.len() as int));
    }
    if stored == composite_of(token, key) {
        lemma_tenant_key_of_composite(token, key);
    }
}

/// Within one tenant, different client keys have different stored keys.
pub proof fn lemma_composite_injective_in_key(token: Seq<char>, a: Seq<char>, b: Seq<char>)
    requires
        composite_of(token, a) == composite_of(token, b),
    ensures
        a == b,
{
    lemma_tenant_key_of_composite(token, a);
    lemma_tenant_key_of_composite(token, b);
}

/// Different tokens have different markers.
pub proof fn lemma_marker_injective(a: Seq<char>, b: Seq<char>)
    requires
        marker_of(a) == marker_of(b),
    ensures
        a == b,
{
    assert(marker_of(a).skip(6) =~= a);
    assert(marker_of(b).skip(6) =~= b);
}

/// Two different tokens can share a stored key only where one token followed
/// by a dash begins the other.
pub proof fn lemma_shared_key_needs_overlap(
    a: Seq<char>,
    ka: Seq<char>,
    b: Seq<char>,
    kb: Seq<char>,
)
    requires
        a != b,
        composite_of(a, ka) == composite_of(b, kb),
    ensures
        !regions_apart(a, b),
{
    let ca = composite_of(a, ka);
    let cb = composite_of(b, kb);
    if a.len() == b.len() {
        assert(a =~= ca.subrange(0, a.len() as int));
        assert(b =~= cb.subrange(0, b.len() as int));
    } else if a.len() < b.len() {
        let p = tenant_prefix(a);
        assert(ca[a.len() as int] == '-');
        assert forall|i: int| 0 <= i < p.len() implies p[i] == b[i] by {
            assert(ca[i] == p[i]);
            assert(cb[i] == b[i]);
        }
        assert(p =~= b.subrange(0, p.len() as int));
    } else {
        let p = tenant_prefix(b);
        assert(cb[b.len() as int] == '-');
        assert forall|i: int| 0 <= i < p.len() implies p[i] == a[i] by {
            assert(cb[i] == p[i]);
            assert(ca[i] == a[i]);
        }
        assert(p =~= a.subrange(0, p.len() as int));
    }
}

/// Where one token followed by a dash begins another, the two do share stored
/// keys: the overlap that `regions_apart` rules out is a real one.
pub proof fn lemma_overlap_shares_key(a: Seq<char>, b: Seq<char>, kb: Seq<char>)
    requires
        tenant_prefix(a).is_prefix_of(b),
    ensures
        a != b,
        composite_of(a, b.skip(a.len() as int + 1) + seq!['-'] + kb) == composite_of(b, kb),
{
    let p = tenant_prefix(a);
    assert(b =~= b.subrange(0, p.len() as int) + b.skip(p.len() as int));
    assert(composite_of(a, b.skip(a.len() as int + 1) + seq!['-'] + kb) =~= composite_of(b, kb));
}

/// Tokens without a dash, such as generated ones, never overlap.
pub proof fn lemma_dashless_tokens_apart(a: Seq<char>, b: Seq<char>)
    requires
        !a.contains('-'),
        !b.contains('-'),
    ensures
        regions_apart(a, b),
{
    if tenant_prefix(a).is_prefix_of(b) {
        assert(b[a.len() as int] == tenant_prefix(a)[a.len() as int]);
        assert(b.contains('-'));
    }
    if tenant_prefix(b).is_prefix_of(a) {
        assert(a[b.len() as int] == tenant_prefix(b)[b.len() as int]);
        assert(a.contains('-'));
    }
}

/// A token of digits and letters holds no dash.
pub proof fn lemma_alnum_has_no_dash(token: Seq<char>)
    requires
        all_alnum(token),
    ensures
        !token.contains('-'),
{
    if token.contains('-') {
        let i = choose|i: int| 0 <= i < token.len() && token[i] == '-';
        assert(is_alnum(token[i]));
    }
}

/// A client key is among a tenant's keys exactly when its composite is among
/// the stored keys.
pub proof fn lemma_tenant_keys_members(stored: Seq<Seq<char>>, token: Seq<char>, key: Seq<char>)
    ensures
        tenant_keys(stored, token).contains(key) <==> stored.contains(composite_of(token, key)),
    decreases stored.len(),
{
    let pick = |s: Seq<char>| tenant_key(token, s);
    let wanted = composite_of(token, key);
    if stored.len() == 0 {
        assert(stored.filter_map(pick) =~= Seq::<Seq<char>>::empty());
    } else {
        let rest = stored.drop_last();
        let last = stored.last();
        lemma_tenant_keys_members(rest, token, key);
        lemma_tenant_key_is_composite(token, last, key);
        let out = tenant_keys(stored, token);
        let out_rest = tenant_keys(rest, token);
        if tenant_keys(stored, token).contains(key) {
            let i = choose|i: int| 0 <= i < out.len() && out[i] == key;
            if i < out_rest.len() {
                assert(out_rest[i] == key);
                assert(out_rest.contains(key));
                let j = choose|j: int| 0 <= j < rest.len() && rest[j] == wanted;
                assert(stored[j] == wanted);
            } else {
                assert(tenant_key(token, last) == Some(key));
                assert(stored[stored.len() - 1] == wanted);
            }
        }
        if stored.contains(wanted) {
            let j = choose|j: int| 0 <= j < stored.len() && stored[j] == wanted;
            if j < rest.len() {
                assert(rest[j] == wanted);
                assert(rest.contains(wanted));
                let i = choose|i: int| 0 <= i < out_rest.len() && out_rest[i] == key;
                assert(out[i] == key);
            } else {
                assert(out[out.len() - 1] == key);
            }
        }
    }
}

/// Stored keys that are all different give client keys that are all different.
pub proof fn lemma_tenant_keys_distinct(stored: Seq<Seq<char>>, token: Seq<char>)
    requires
        stored.no_duplicates(),
    ensures
        tenant_keys(stored, token).no_duplicates(),
    decreases stored.len(),
{
    let pick = |s: Seq<char>| tenant_key(token, s);
    if stored.len() == 0 {
        assert(stored.filter_map(pick) =~= Seq::<Seq<char>>::empty());
    } else {
        let rest = stored.drop_last();
        let last = stored.last();
        lemma_tenant_keys_distinct(rest, token);
        let out = tenant_keys(stored, token);
        let out_rest = tenant_keys(rest, token);
        if tenant_key(token, last) is Some {
            let key = tenant_key(token, last)->0;
            lemma_tenant_key_is_composite(token, last, key);
            lemma_tenant_keys_members(rest, token, key);
            if out_rest.contains(key) {
                let j = choose|j: int| 0 <= j < rest.len() && rest[j] == last;
                assert(stored[j] == stored[stored.len() - 1]);
            }
            assert forall|i: int, j: int| 0 <= i < out.len() && 0 <= j < out.len() && i != j implies out[i]
                != out[j] by {
                if i < out_rest.len() && j < out_rest.len() {
                    assert(out_rest[i] != out_rest[j]);
                } else if i < out_rest.len() {
                    assert(out_rest[i] == out[i]);
                    assert(out_rest.contains(out[i]));
                } else {
                    assert(out_rest[j] == out[j]);
                    assert(out_rest.contains(out[j]));
                }
            }
        }
    }
}

/// Builds the marker under which `token` is registered.
pub fn marker_key(token: &str) -> (k: String)
    ensures
        k@ == marker_of(token@),
{
    proof {
        reveal_strlit("token-");
    }
    let mut k: String = "token-".to_owned();
    k.append(token);
    assert(k@ =~= marker_of(token@));
    k
}

/// Builds the stored key of the value that `token` keeps under `key`.
pub fn composite_key(token: &str, key: &str) -> (k: String)
    ensures
        k@ == composite_of(token@, key@),
{
    proof {
        reveal_strlit("-");
    }
    let mut k: String = token.to_owned();
    k.append("-");
    k.append(key);
    assert(k@ =~= composite_of(token@, key@));
    k
}

/// Picks out the client keys of `token` among stored keys and removes the
/// tenant's prefix from each, keeping their order.
pub fn strip_tenant(stored: &Vec<String>, token: &str) -> (keys: Vec<String>)
    ensures
        texts(keys@) == tenant_keys(texts(stored@), token@),
{
    let mut prefix: Vec<char> = to_chars(token);
    prefix.push('-');
    let ghost all = texts(stored@);
    let ghost pick = |s: Seq<char>| tenant_key(token@, s);
    let mut keys: Vec<String> = Vec::new();
    let mut i: usize = 0;
    while i < stored.len()
        invariant
            i <= stored.len(),
            all == texts(stored@),
            prefix@ == tenant_prefix(token@),
            pick == |s: Seq<char>| tenant_key(token@, s),
            texts(keys@) == all.take(i as int).filter_map(pick),
        decreases stored.len() - i,
    {
        let entry = stored[i].as_str();
        let chars = to_chars(entry);
        proof {
            all.lemma_filter_map_take_succ(pick, i as int);
        }
        if starts_with(&chars, &prefix) {
            let rest = entry.substring_char(prefix.len(), chars.len());
            let ghost before = texts(keys@);
            keys.push(rest.to_owned());
            assert(texts(keys@) =~= before + seq![rest@]);
        }
        i += 1;
    }
    assert(all.take(stored.len() as int) =~= all);
    keys
}

/// `regex::Regex::new` on `pattern`, then `regex::Regex::is_match` on `text`.
///
/// Trusted, and asked for the key pattern only: a class of the ASCII digits and
/// letters, repeated between one and a hundred times, with no anchor. The
/// pattern compiles, and a search for it succeeds exactly when `text` holds at
/// least one character of the class.
#[verifier::external_body]
fn regex_is_match(pattern: &str, text: &str) -> (found: Option<bool>)
    requires
        pattern@ == KEY_PATTERN@,
    ensures
        found == Some(has_alnum(text@)),
{
    regex::Regex::new(pattern).ok().map(|re| re.is_match(text))
}

/// Whether `key` may be written: whether the key pattern is found in it.
pub fn validate_key(key: &str) -> (ok: bool)
    ensures
        ok == is_valid_key(key@),
{
    match regex_is_match(KEY_PATTERN, key) {
        Some(found) => found,
        None => false,
    }
}

} // verus!
