//! The store seen as the outcome of its history: what the counts and the
//! listings are after any sequence of confirmed registrations and writes,
//! starting from the empty store.

use vstd::prelude::*;
use vstd::utf8::encode_utf8;
use crate::keys::{composite_of, lemma_marker_injective, lemma_shared_key_needs_overlap, marker_of,
    regions_apart};
use crate::laws::law_counts;
use crate::model::{lemma_encode_injective, DbView};

verus! {

/// One confirmed change of the store.
pub enum Change {
    /// A token was registered.
    Registered { token: Seq<char> },
    /// A text was written for a key under a token.
    Written { owner: Seq<char>, key: Seq<char>, text: Seq<char> },
}

/// The token that a change registered, if it is a registration.
pub open spec fn registered_by(c: Change) -> Option<Seq<char>> {
    match c {
        Change::Registered { token } => Some(token),
        Change::Written { .. } => None,
    }
}

/// The token and key that a change wrote to, if it is a write.
pub open spec fn written_by(c: Change) -> Option<(Seq<char>, Seq<char>)> {
    match c {
        Change::Registered { .. } => None,
        Change::Written { owner, key, .. } => Some((owner, key)),
    }
}

/// The store after one more change.
pub open spec fn apply(v: DbView, c: Change) -> DbView {
    match c {
        Change::Registered { token } => v.with_token(token),
        Change::Written { owner, key, text } => v.with_value(owner, key, text),
    }
}

/// The store that a history leads to from the empty store.
pub open spec fn replay(h: Seq<Change>) -> DbView
    decreases h.len(),
{
    if h.len() == 0 {
        DbView::empty()
    } else {
        apply(replay(h.drop_last()), h.last())
    }
}

/// The tokens that were ever registered.
pub open spec fn tokens_in(h: Seq<Change>) -> Set<Seq<char>> {
    Set::new(|token: Seq<char>| exists|i: int| 0 <= i < h.len() && registered_by(#[trigger] h[i]) == Some(token))
}

/// The pairs of a token and a key that were ever written to.
pub open spec fn pairs_in(h: Seq<Change>) -> Set<(Seq<char>, Seq<char>)> {
    Set::new(
        |pair: (Seq<char>, Seq<char>)|
            exists|i: int| 0 <= i < h.len() && written_by(#[trigger] h[i]) == Some(pair),
    )
}

/// The text of the last write to `key` under `token`, if there was one.
pub open spec fn last_written(h: Seq<Change>, token: Seq<char>, key: Seq<char>) -> Option<Seq<char>>
    decreases h.len(),
{
    if h.len() == 0 {
        None
    } else {
        match h.last() {
            Change::Written { owner, key: written, text } if owner == token && written == key => Some(
                text,
            ),
            _ => last_written(h.drop_last(), token, key),
        }
    }
}

/// No two different pairs that were written to share a stored key. Histories
/// in which a token followed by a dash begins another token can break this;
/// histories of generated tokens cannot.
pub open spec fn collision_free(h: Seq<Change>) -> bool {
    forall|p: (Seq<char>, Seq<char>), q: (Seq<char>, Seq<char>)|
        #![trigger pairs_in(h).contains(p), pairs_in(h).contains(q)]
        pairs_in(h).contains(p) && pairs_in(h).contains(q) && composite_of(p.0, p.1)
            == composite_of(q.0, q.1) ==> p == q
}

/// Every token that was written under is `token` itself or has a region apart
/// from it.
pub open spec fn writers_apart_from(h: Seq<Change>, token: Seq<char>) -> bool {
    forall|p: (Seq<char>, Seq<char>)| #[trigger]
        pairs_in(h).contains(p) ==> p.0 == token || regions_apart(p.0, token)
}

proof fn lemma_tokens_in_step(h: Seq<Change>)
    requires
        h.len() > 0,
    ensures
        tokens_in(h) == match registered_by(h.last()) {
            Some(token) => tokens_in(h.drop_last()).insert(token),
            None => tokens_in(h.drop_last()),
        },
        pairs_in(h) == match written_by(h.last()) {
            Some(pair) => pairs_in(h.drop_last()).insert(pair),
            None => pairs_in(h.drop_last()),
        },
{
    let rest = h.drop_last();
    let last = h.last();
    let t_expected = match registered_by(last) {
        Some(token) => tokens_in(rest).insert(token),
        None => tokens_in(rest),
    };
    assert forall|token: Seq<char>| tokens_in(h).contains(token) == t_expected.contains(token) by {
        if tokens_in(h).contains(token) {
            let i = choose|i: int| 0 <= i < h.len() && registered_by(#[trigger] h[i]) == Some(token);
            if i < rest.len() {
                assert(rest[i] == h[i]);
            }
        }
        if tokens_in(rest).contains(token) {
            let i = choose|i: int|
                0 <= i < rest.len() && registered_by(#[trigger] rest[i]) == Some(token);
            assert(h[i] == rest[i]);
        }
        if registered_by(last) == Some(token) {
            assert(h[h.len() - 1] == last);
        }
    }
    assert(tokens_in(h) =~= t_expected);
    let p_expected = match written_by(last) {
        Some(pair) => pairs_in(rest).insert(pair),
        None => pairs_in(rest),
    };
    assert forall|pair: (Seq<char>, Seq<char>)| pairs_in(h).contains(pair) == p_expected.contains(
        pair,
    ) by {
        if pairs_in(h).contains(pair) {
            let i = choose|i: int| 0 <= i < h.len() && written_by(#[trigger] h[i]) == Some(pair);
            if i < rest.len() {
                assert(rest[i] == h[i]);
            }
        }
        if pairs_in(rest).contains(pair) {
            let i = choose|i: int| 0 <= i < rest.len() && written_by(#[trigger] rest[i]) == Some(pair);
            assert(h[i] == rest[i]);
        }
        if written_by(last) == Some(pair) {
            assert(h[h.len() - 1] == last);
        }
    }
    assert(pairs_in(h) =~= p_expected);
}

/// A token is registered after a history exactly when the history registered it.
pub proof fn law_history_registered(h: Seq<Change>, token: Seq<char>)
    ensures
        replay(h).registered(token) <==> tokens_in(h).contains(token),
    decreases h.len(),
{
    if h.len() > 0 {
        let rest = h.drop_last();
        law_history_registered(rest, token);
        lemma_tokens_in_step(h);
        match h.last() {
            Change::Registered { token: other } => {
                if encode_utf8(marker_of(other)) == encode_utf8(marker_of(token)) {
                    lemma_encode_injective(marker_of(other), marker_of(token));
                    lemma_marker_injective(other, token);
                }
            },
            Change::Written { .. } => {},
        }
    }
}

/// The token count is the number of different tokens that were ever
/// registered: registering a token again does not count twice, and writes do
/// not count.
pub proof fn law_history_token_count(h: Seq<Change>)
    ensures
        replay(h).wf(),
        tokens_in(h).finite(),
        replay(h).token_count() == tokens_in(h).len(),
    decreases h.len(),
{
    if h.len() == 0 {
        assert(tokens_in(h) =~= Set::<Seq<char>>::empty());
        assert(DbView::empty().tokens.dom() =~= Set::<Seq<u8>>::empty());
        assert(DbView::empty().values.dom() =~= Set::<Seq<u8>>::empty());
    } else {
        let rest = h.drop_last();
        law_history_token_count(rest);
        lemma_tokens_in_step(h);
        match h.last() {
            Change::Registered { token } => {
                law_history_registered(rest, token);
                law_counts(replay(rest), token, token, token);
            },
            Change::Written { owner, key, text } => {
                law_counts(replay(rest), owner, key, text);
            },
        }
    }
}

/// Where the writers' regions are apart from `token`, a key has an entry under
/// `token` exactly when the history wrote to it under `token`: the keys of a
/// tenant are those it wrote, with nothing of another tenant among them.
pub proof fn law_history_keys(h: Seq<Change>, token: Seq<char>, key: Seq<char>)
    requires
        writers_apart_from(h, token),
    ensures
        replay(h).has_key(token, key) <==> pairs_in(h).contains((token, key)),
    decreases h.len(),
{
    if h.len() > 0 {
        let rest = h.drop_last();
        lemma_tokens_in_step(h);
        assert(writers_apart_from(rest, token)) by {
            assert forall|p: (Seq<char>, Seq<char>)| #[trigger]
                pairs_in(rest).contains(p) implies p.0 == token || regions_apart(p.0, token) by {
                assert(pairs_in(h).contains(p));
            }
        }
        law_history_keys(rest, token, key);
        match h.last() {
            Change::Registered { .. } => {},
            Change::Written { owner, key: written, text } => {
                assert(pairs_in(h).contains((owner, written)));
                let a = composite_of(owner, written);
                let b = composite_of(token, key);
                if encode_utf8(a) == encode_utf8(b) {
                    lemma_encode_injective(a, b);
                    if owner != token {
                        lemma_shared_key_needs_overlap(owner, written, token, key);
                    } else {
                        crate::keys::lemma_composite_injective_in_key(token, written, key);
                    }
                }
            },
        }
    }
}

/// Where the writers' regions are apart from `token`, what is kept for a key
/// under `token` is what was last written there: the last write wins, and no
/// write under another token is ever read.
pub proof fn law_history_last_write(h: Seq<Change>, token: Seq<char>, key: Seq<char>)
    requires
        writers_apart_from(h, token),
    ensures
        replay(h).stored(token, key) == last_written(h, token, key),
    decreases h.len(),
{
    if h.len() > 0 {
        let rest = h.drop_last();
        lemma_tokens_in_step(h);
        assert(writers_apart_from(rest, token)) by {
            assert forall|p: (Seq<char>, Seq<char>)| #[trigger]
                pairs_in(rest).contains(p) implies p.0 == token || regions_apart(p.0, token) by {
                assert(pairs_in(h).contains(p));
            }
        }
        law_history_last_write(rest, token, key);
        match h.last() {
            Change::Registered { .. } => {},
            Change::Written { owner, key: written, text } => {
                assert(pairs_in(h).contains((owner, written)));
                crate::laws::law_read_after_write(replay(rest), owner, written, text);
                let a = composite_of(owner, written);
                let b = composite_of(token, key);
                if encode_utf8(a) == encode_utf8(b) {
                    lemma_encode_injective(a, b);
                    if owner != token {
                        lemma_shared_key_needs_overlap(owner, written, token, key);
                    } else {
                        crate::keys::lemma_composite_injective_in_key(token, written, key);
                    }
                }
            },
        }
    }
}

proof fn lemma_history_raw_values(h: Seq<Change>, raw: Seq<u8>)
    ensures
        replay(h).values.dom().contains(raw) <==> exists|p: (Seq<char>, Seq<char>)| #[trigger]
            pairs_in(h).contains(p) && encode_utf8(composite_of(p.0, p.1)) == raw,
    decreases h.len(),
{
    if h.len() > 0 {
        let rest = h.drop_last();
        lemma_tokens_in_step(h);
        lemma_history_raw_values(rest, raw);
        if exists|p: (Seq<char>, Seq<char>)| #[trigger]
            pairs_in(rest).contains(p) && encode_utf8(composite_of(p.0, p.1)) == raw {
            let p = choose|p: (Seq<char>, Seq<char>)| #[trigger]
                pairs_in(rest).contains(p) && encode_utf8(composite_of(p.0, p.1)) == raw;
            assert(pairs_in(h).contains(p));
        }
        match h.last() {
            Change::Registered { .. } => {},
            Change::Written { owner, key, text } => {
                assert(pairs_in(h).contains((owner, key)));
            },
        }
        if exists|p: (Seq<char>, Seq<char>)| #[trigger]
            pairs_in(h).contains(p) && encode_utf8(composite_of(p.0, p.1)) == raw {
            let p = choose|p: (Seq<char>, Seq<char>)| #[trigger]
                pairs_in(h).contains(p) && encode_utf8(composite_of(p.0, p.1)) == raw;
            if pairs_in(rest).contains(p) {
            } else {
                assert(written_by(h.last()) == Some(p));
            }
        }
    }
}

/// Where no two pairs share a stored key, the value count is the number of
/// different pairs of a token and a key that were ever written to: a write
/// that overwrites does not count twice, and registrations do not count.
pub proof fn law_history_value_count(h: Seq<Change>)
    requires
        collision_free(h),
    ensures
        pairs_in(h).finite(),
        replay(h).value_count() == pairs_in(h).len(),
    decreases h.len(),
{
    law_history_token_count(h);
    if h.len() == 0 {
        assert(pairs_in(h) =~= Set::<(Seq<char>, Seq<char>)>::empty());
        assert(DbView::empty().values.dom() =~= Set::<Seq<u8>>::empty());
    } else {
        let rest = h.drop_last();
        lemma_tokens_in_step(h);
        assert(collision_free(rest)) by {
            assert forall|p: (Seq<char>, Seq<char>), q: (Seq<char>, Seq<char>)|
                #![trigger pairs_in(rest).contains(p), pairs_in(rest).contains(q)]
                pairs_in(rest).contains(p) && pairs_in(rest).contains(q) && composite_of(p.0, p.1)
                    == composite_of(q.0, q.1) implies p == q by {
                assert(pairs_in(h).contains(p) && pairs_in(h).contains(q));
            }
        }
        law_history_value_count(rest);
        law_history_token_count(rest);
        match h.last() {
            Change::Registered { token } => {
                law_counts(replay(rest), token, token, token);
            },
            Change::Written { owner, key, text } => {
                law_counts(replay(rest), owner, key, text);
                let raw = encode_utf8(composite_of(owner, key));
                lemma_history_raw_values(rest, raw);
                assert(pairs_in(h).contains((owner, key)));
                if replay(rest).has_key(owner, key) {
                    let p = choose|p: (Seq<char>, Seq<char>)| #[trigger]
                        pairs_in(rest).contains(p) && encode_utf8(composite_of(p.0, p.1)) == raw;
                    lemma_encode_injective(composite_of(p.0, p.1), composite_of(owner, key));
                    assert(pairs_in(h).contains(p));
                    assert(p == (owner, key));
                }
            },
        }
    }
}

/// Histories in which every write was made under a generated token are free of
/// collisions.
pub proof fn law_generated_tokens_collision_free(h: Seq<Change>)
    requires
        forall|p: (Seq<char>, Seq<char>)| #[trigger]
            pairs_in(h).contains(p) ==> crate::registry::is_token(p.0),
    ensures
        collision_free(h),
{
    assert forall|p: (Seq<char>, Seq<char>), q: (Seq<char>, Seq<char>)|
        #![trigger pairs_in(h).contains(p), pairs_in(h).contains(q)]
        pairs_in(h).contains(p) && pairs_in(h).contains(q) && composite_of(p.0, p.1)
            == composite_of(q.0, q.1) implies p == q by {
        crate::keys::lemma_alnum_has_no_dash(p.0);
        crate::keys::lemma_alnum_has_no_dash(q.0);
        crate::keys::lemma_dashless_tokens_apart(p.0, q.0);
        if p.0 != q.0 {
            lemma_shared_key_needs_overlap(p.0, p.1, q.0, q.1);
        } else {
            crate::keys::lemma_composite_injective_in_key(p.0, p.1, q.1);
        }
    }
}

} // verus!
