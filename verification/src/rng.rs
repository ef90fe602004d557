//! Seeded shuffling through `rand` and `rand_chacha`.
use rand::seq::SliceRandom;
use rand::SeedableRng;
use rand_chacha::ChaCha8Rng;
use vstd::prelude::*;

use crate::cards::Card;

verus! {

/// The order in which `rand`'s `SliceRandom::shuffle` leaves `cards` when it is driven by
/// a ChaCha8 generator freshly seeded with `seed` through `SeedableRng::seed_from_u64`.
pub uninterp spec fn seeded_shuffle(cards: Seq<Card>, seed: u64) -> Seq<Card>;

/// Shuffles `cards` with a fresh `ChaCha8Rng::seed_from_u64(seed)` and
/// `SliceRandom::shuffle`. Trusted: the result is the named order
/// `seeded_shuffle(cards, seed)`, a function of the cards and the seed alone, and it
/// is a permutation of `cards` (the shuffle only swaps elements).
#[verifier::external_body]
pub(crate) fn shuffle_with_seed(cards: Vec<Card>, seed: u64) -> (r: Vec<Card>)
    ensures
        r@ == seeded_shuffle(cards@, seed),
        r@.len() == cards@.len(),
        r@.to_multiset() == cards@.to_multiset(),
{
    let mut cards = cards;
    cards.shuffle(&mut ChaCha8Rng::seed_from_u64(seed));
    cards
}

/// The order in which `rand`'s `SliceRandom::shuffle` leaves `cards` when it is driven by
/// a ChaCha8 generator seeded with `seed` that has already shuffled one slice of
/// `first_len` elements. That first shuffle draws a number of values that depends on its
/// length alone, so the generator's state afterwards is a function of the seed and
/// `first_len`.
pub uninterp spec fn seeded_second_shuffle(first_len: nat, cards: Seq<Card>, seed: u64) -> Seq<Card>;

/// Seeds one `ChaCha8Rng::seed_from_u64(seed)` and shuffles `first`, then `second`, with
/// it through `SliceRandom::shuffle`. Trusted: the first result is
/// `seeded_shuffle(first, seed)` (the generator is fresh for it), the second is the named
/// order `seeded_second_shuffle(first.len(), second, seed)`, and each is a permutation of
/// what went in.
#[verifier::external_body]
pub(crate) fn shuffle_pair_with_seed(first: Vec<Card>, second: Vec<Card>, seed: u64) -> (r: (
    Vec<Card>,
    Vec<Card>,
))
    ensures
        r.0@ == seeded_shuffle(first@, seed),
        r.0@.len() == first@.len(),
        r.0@.to_multiset() == first@.to_multiset(),
        r.1@ == seeded_second_shuffle(first@.len(), second@, seed),
        r.1@.len() == second@.len(),
        r.1@.to_multiset() == second@.to_multiset(),
{
    let mut rng = ChaCha8Rng::seed_from_u64(seed);
    let mut first = first;
    let mut second = second;
    first.shuffle(&mut rng);
    second.shuffle(&mut rng);
    (first, second)
}

} // verus!
