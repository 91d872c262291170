//! The token registry: which tokens are valid, how one is registered and how a
//! fresh one is drawn.
//!
//! A token is an opaque string of eight ASCII digits and letters. Once
//! registered it stays registered: nothing in the library removes a marker.

use vstd::prelude::*;
use rand::Rng;
use crate::keys::marker_key;
use crate::store::Db;
use crate::text::all_alnum;

verus! {

/// The number of characters of a generated token.
pub const TOKEN_LEN: usize = 8;

/// The shape of a generated token: eight ASCII digits and letters.
pub open spec fn is_token(s: Seq<char>) -> bool {
    s.len() == TOKEN_LEN && all_alnum(s)
}

/// What a lookup in the registry is taken to mean. A lookup that failed counts
/// as a token that exists: when the registry cannot be read, no new token is
/// minted, and every token a client presents is let through.
pub open spec fn presumed_present(lookup: Option<bool>) -> bool {
    lookup != Some(false)
}

/// Decides from the outcome of a lookup whether the token is taken to exist:
/// `None` stands for a lookup that failed, and counts as present.
pub fn presume_present(lookup: Option<bool>) -> (present: bool)
    ensures
        present == presumed_present(lookup),
{
    match lookup {
        Some(found) => found,
        None => true,
    }
}

/// Looks `t` up in the registry. `None` where the store could not answer.
pub fn lookup_token(db: &Db, t: &str) -> (r: Option<bool>)
    ensures
        r matches Some(found) ==> found == db@.registered(t@),
{
    let marker = marker_key(t);
    db.token_entry_present(&marker)
}

/// Whether `t` is taken to exist: it is registered, or the registry could not
/// be read. An answer of `false` is therefore always backed by the store.
pub fn token_exist(db: &Db, t: &str) -> (exists: bool)
    ensures
        db@.registered(t@) ==> exists,
{
    presume_present(lookup_token(db, t))
}

/// Registers `t` by writing its marker, and says whether the store confirmed
/// the write. A token must not be handed out on `false`.
pub fn write_token(db: &mut Db, t: &str) -> (written: bool)
    ensures
        written ==> final(db)@ == old(db)@.with_token(t@),
        !written ==> final(db)@ == old(db)@ || final(db)@ == old(db)@.with_token(t@),
        old(db)@.wf() ==> final(db)@.wf(),
        final(db)@.extends(old(db)@),
{
    let marker = marker_key(t);
    db.put_token_entry(&marker, &marker)
}

/// `rand::thread_rng`, then `rand::Rng::sample_iter` with
/// `rand::distributions::Alphanumeric`, taken `len` times.
///
/// Trusted: the string has `len` characters, each an ASCII digit or letter.
/// Which ones is left open.
#[verifier::external_body]
fn sample_alphanumeric(len: usize) -> (s: String)
    ensures
        s@.len() == len,
        all_alnum(s@),
{
    rand::thread_rng().sample_iter(&rand::distributions::Alphanumeric).take(len).map(
        char::from,
    ).collect()
}

/// What becomes of a drawn candidate, given whether it is taken to exist: it is
/// the fresh token where it is not, and is dropped where it is.
pub fn fresh_or_none(candidate: String, taken: bool) -> (r: Option<String>)
    ensures
        taken ==> r is None,
        !taken ==> r == Some(candidate),
{
    if taken {
        None
    } else {
        Some(candidate)
    }
}

/// Draws random tokens until one is found that the registry does not hold, at
/// most `attempts` times. The token is not registered yet: that is the caller's
/// next step. `None` when every draw was taken to exist, which is what happens
/// while the registry cannot be read.
pub fn random_token(db: &Db, attempts: usize) -> (r: Option<String>)
    ensures
        r matches Some(token) ==> is_token(token@) && !db@.registered(token@),
        attempts == 0 ==> r is None,
{
    let mut left: usize = attempts;
    while left > 0
        invariant
            left <= attempts,
        decreases left,
    {
        let candidate = sample_alphanumeric(TOKEN_LEN);
        let taken = token_exist(db, candidate.as_str());
        let fresh = fresh_or_none(candidate, taken);
        if fresh.is_some() {
            return fresh;
        }
        left -= 1;
    }
    None
}

} // verus!
