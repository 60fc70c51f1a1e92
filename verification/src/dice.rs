//! The random source of a battle.
//!
//! A battle owns one seedable generator and threads it through every draw.
//! The generator comes from the `rand` crate; the three functions here are
//! the only places where it is called, and their contracts are taken on
//! trust.

use rand::rngs::StdRng;
use rand::seq::SliceRandom;
use rand::Rng;
use rand::SeedableRng;
use vstd::prelude::*;

verus! {

/// The generator `rand::rngs::StdRng`. Proofs see nothing inside it: what a
/// draw gives is known only as far as the contracts below say.
#[verifier::external_type_specification]
#[verifier::external_body]
pub struct ExStdRng(rand::rngs::StdRng);

/// Makes the generator that belongs to `seed`, by
/// `rand::SeedableRng::seed_from_u64`. Nothing is claimed of it.
#[verifier::external_body]
pub(crate) fn seeded(seed: u64) -> (rng: StdRng) {
    StdRng::seed_from_u64(seed)
}

/// Draws an integer between `low` and `high`, both included, by
/// `rand::Rng::gen_range` on the inclusive range `low..=high`.
///
/// Trusted: the draw lies in the range. `gen_range` panics on an empty range,
/// so the range must hold at least one value.
#[verifier::external_body]
pub(crate) fn roll(rng: &mut StdRng, low: i32, high: i32) -> (value: i32)
    requires
        low <= high,
    ensures
        low <= value <= high,
{
    rng.gen_range(low..=high)
}

/// Reorders `items` in place by `rand::seq::SliceRandom::shuffle`.
///
/// Trusted: the shuffle only swaps elements, so the vector afterwards holds
/// the same elements as before, each as often as before.
#[verifier::external_body]
pub(crate) fn shuffle<T>(items: &mut Vec<T>, rng: &mut StdRng)
    ensures
        final(items)@.to_multiset() == old(items)@.to_multiset(),
{
    items.shuffle(rng);
}

/// What a shuffle keeps: the length, which elements occur, and that none
/// occurs twice.
pub proof fn lemma_shuffle_keeps<T>(before: Seq<T>, after: Seq<T>)
    requires
        after.to_multiset() == before.to_multiset(),
    ensures
        after.len() == before.len(),
        forall|x: T| after.contains(x) <==> before.contains(x),
        before.no_duplicates() ==> after.no_duplicates(),
{
    vstd::seq_lib::to_multiset_len(before);
    vstd::seq_lib::to_multiset_len(after);
    assert forall|x: T| after.contains(x) <==> before.contains(x) by {
        vstd::seq_lib::to_multiset_contains(after, x);
        vstd::seq_lib::to_multiset_contains(before, x);
    }
    if before.no_duplicates() {
        before.lemma_multiset_has_no_duplicates();
        after.lemma_multiset_has_no_duplicates_conv();
    }
}

} // verus!
