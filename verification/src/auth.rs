//! Who may log in.

use crate::table::Table;
use std::collections::hash_map::DefaultHasher;
use std::hash::{Hash, Hasher};
use vstd::prelude::*;
use vstd::std_specs::hash::DefaultHasherAdditionalSpecFns;

verus! {

/// What a `DefaultHasher` has been fed with after a text was hashed into it, out
/// of what it had been fed with before, as the standard library's `Hash` for
/// strings feeds it.
pub uninterp spec fn hashed_text(fed: Seq<Seq<u8>>, text: Seq<char>) -> Seq<Seq<u8>>;

/// `<str as std::hash::Hash>::hash` into a `DefaultHasher`. Trusted to depend on
/// the text, and on what the hasher was fed with before, alone.
#[verifier::external_body]
fn hash_text(text: &str, hasher: &mut DefaultHasher)
    ensures
        final(hasher)@ == hashed_text(old(hasher)@, text@),
{
    text.hash(hasher);
}

/// The number that is kept of a password.
pub open spec fn password_digest(password: Seq<char>) -> u64 {
    DefaultHasher::spec_finish(hashed_text(Seq::empty(), password))
}

/// Whether `password` is the password of the account `email`, as far as the hash
/// tells.
pub open spec fn authentic(
    accounts: Map<Seq<char>, u64>,
    email: Seq<char>,
    password: Seq<char>,
) -> bool {
    accounts.contains_key(email) && accounts[email] == password_digest(password)
}

/// The hash of a password.
pub fn password_hash(password: &str) -> (digest: u64)
    ensures
        digest == password_digest(password@),
        digest == DefaultHasher::spec_finish(hashed_text(Seq::empty(), password@)),
{
    let mut hasher = DefaultHasher::new();
    hash_text(password, &mut hasher);
    hasher.finish()
}

/// Checks a password against the accounts.
pub fn authenticate(accounts: &Table<u64>, email: &str, password: &str) -> (ok: bool)
    ensures
        ok == authentic(accounts@, email@, password@),
        ok == (accounts@.contains_key(email@) && accounts@[email@] == DefaultHasher::spec_finish(
            hashed_text(Seq::empty(), password@),
        )),
{
    let digest: u64 = password_hash(password);
    match accounts.get(email) {
        Some(kept) => *kept == digest,
        None => false,
    }
}

} // verus!
