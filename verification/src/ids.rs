//! Identity capabilities: opaque id generation, one-way hashing, and the
//! clock. All three are provided by the `dorsal` crate and stand behind
//! trusted declarations; nothing else in the crate is taken on trust.

use vstd::prelude::*;

verus! {

/// What `dorsal::utility::hash` returns for a given input: a one-way,
/// deterministic digest. The crate states nothing further about it.
pub uninterp spec fn hash_of(s: Seq<char>) -> Seq<char>;

/// Relies on `dorsal::utility::hash`: a SHA-256 hex digest, a function of
/// the input characters alone.
#[verifier::external_body]
pub(crate) fn hash_id(input: String) -> (r: String)
    ensures
        r@ == hash_of(input@),
{
    dorsal::utility::hash(input)
}

/// Relies on `dorsal::utility::uuid`: a freshly generated random identifier.
/// Nothing can be promised of a random value, so no clause is stated.
#[verifier::external_body]
pub(crate) fn random_unhashed_id() -> String {
    dorsal::utility::uuid()
}

/// Relies on `dorsal::utility::unix_epoch_timestamp`: milliseconds since the
/// Unix epoch, read from the system clock (which must not sit before the
/// epoch). Nothing can be promised of the clock, so no clause is stated.
#[verifier::external_body]
pub(crate) fn current_timestamp() -> u128 {
    dorsal::utility::unix_epoch_timestamp()
}

} // verus!
