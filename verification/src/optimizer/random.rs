//! Independent generators for the parts of an optimization.
use rand::rngs::Xoshiro256PlusPlus;
use rand::{Rng, SeedableRng};
use vstd::prelude::*;

verus! {

/// A pseudo-random generator of the `rand` crate; it is carried, never looked into.
#[verifier::external_type_specification]
#[verifier::external_body]
pub struct ExXoshiro256PlusPlus(Xoshiro256PlusPlus);

/// The words that a generator has yet to hand out, in order; the generator never runs dry.
pub uninterp spec fn upcoming(rng: Xoshiro256PlusPlus) -> Map<nat, u64>;

/// The words of the generator that `seed_from_u64` makes of a seed.
pub uninterp spec fn seeded(seed: u64) -> Map<nat, u64>;

/// What is left of a stream of words when `n` of them are gone.
pub open spec fn skipped(words: Map<nat, u64>, n: nat) -> Map<nat, u64> {
    Map::new(|i: nat| true, |i: nat| words[i + n])
}

/// Calls `Rng::next_u64` on a `Xoshiro256PlusPlus`. Trusted: the generator is a function of its
/// state alone, so the call takes the first of the words that it has yet to hand out, and
/// leaves the others.
#[verifier::external_body]
fn next_u64(rng: &mut Xoshiro256PlusPlus) -> (word: u64)
    ensures
        word == upcoming(*old(rng))[0],
        upcoming(*final(rng)) == skipped(upcoming(*old(rng)), 1),
{
    rng.next_u64()
}

/// Calls `SeedableRng::seed_from_u64` for `Xoshiro256PlusPlus`. Trusted: the words of the new
/// generator depend on the seed alone.
#[verifier::external_body]
fn seed_from_u64(seed: u64) -> (rng: Xoshiro256PlusPlus)
    ensures
        upcoming(rng) == seeded(seed),
{
    Xoshiro256PlusPlus::seed_from_u64(seed)
}

/// A generator of its own for the next part of the work, seeded with the next word of `rng`.
pub fn next_rng(rng: &mut Xoshiro256PlusPlus) -> (child: Xoshiro256PlusPlus)
    ensures
        upcoming(child) == seeded(upcoming(*old(rng))[0]),
        upcoming(*final(rng)) == skipped(upcoming(*old(rng)), 1),
        forall|i: nat| #[trigger] upcoming(*final(rng))[i] == upcoming(*old(rng))[i + 1],
{
    let seed = next_u64(rng);
    seed_from_u64(seed)
}

/// Skipping words twice is skipping the sum.
pub proof fn lemma_skipped_twice(words: Map<nat, u64>, n: nat, m: nat)
    ensures
        skipped(skipped(words, n), m) == skipped(words, n + m),
{
    assert(skipped(skipped(words, n), m) =~= skipped(words, n + m));
}

} // verus!
