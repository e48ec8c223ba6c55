//! The randomness that emission consumes.
use vstd::prelude::*;

verus! {

/// Relies on `rand::random::<u8>`: a byte drawn from the thread-local
/// generator; nothing is known of its value.
#[verifier::external_body]
pub(crate) fn random_byte() -> u8 {
    rand::random::<u8>()
}

/// Relies on `rand::seq::SliceRandom::shuffle` with `rand::thread_rng`: the
/// items are reordered by swaps, so the same items remain.
#[verifier::external_body]
pub(crate) fn shuffle_in_place<T>(v: &mut Vec<T>)
    ensures
        final(v)@.len() == old(v)@.len(),
        final(v)@.to_multiset() == old(v)@.to_multiset(),
{
    rand::seq::SliceRandom::shuffle(v.as_mut_slice(), &mut rand::thread_rng());
}

} // verus!
