//! Randomness, taken from the `rand` crate.
//!
//! Verus cannot look inside `rand`, so each call stands behind a small
//! wrapper whose contract says only what holds of every outcome.

use vstd::prelude::*;
use rand::rngs::ThreadRng;
use rand::seq::{IndexedRandom, SliceRandom};
use rand::Rng;

verus! {

/// The thread-local generator of `rand`, carried through the game logic.
#[verifier::external_type_specification]
#[verifier::external_body]
pub struct ExThreadRng(ThreadRng);

/// Picks from `ids` are described by the positions they were taken from:
/// `picked[j] == ids[positions[j]]`, every position is in range and no
/// position is used twice.
pub open spec fn picked_at(ids: Seq<u64>, picked: Seq<u64>, positions: Seq<int>) -> bool {
    &&& positions.len() == picked.len()
    &&& forall|j: int| 0 <= j < positions.len() ==> 0 <= #[trigger] positions[j] < ids.len()
    &&& forall|j: int| 0 <= j < positions.len() ==> picked[j] == ids[#[trigger] positions[j]]
    &&& positions.no_duplicates()
}

pub open spec fn min_nat(a: nat, b: nat) -> nat {
    if a < b { a } else { b }
}

/// Calls `rand::rng()`, which hands out a handle to the thread-local
/// generator. Nothing is claimed of the generator's state. The first call on
/// a thread seeds the generator from the operating system and panics if that
/// fails; no clause here can rule that out.
#[verifier::external_body]
pub(crate) fn thread_rng() -> ThreadRng {
    rand::rng()
}

/// Calls `SliceRandom::shuffle` on the vector. The claim: the result is a
/// rearrangement of the same ids (the same multiset); which order comes out
/// is left open, as it rests on chance.
#[verifier::external_body]
pub(crate) fn shuffle_ids(rng: &mut ThreadRng, ids: &mut Vec<u64>)
    ensures
        final(ids)@.to_multiset() == old(ids)@.to_multiset(),
{
    ids.shuffle(rng);
}

/// Calls `Rng::random_ratio(1, 2)`, a fair coin. Either value may come back;
/// nothing is claimed of which.
#[verifier::external_body]
pub(crate) fn fair_coin(rng: &mut ThreadRng) -> bool {
    rng.random_ratio(1, 2)
}

/// Calls `IndexedRandom::choose_multiple` and copies out what it yields.
/// The claim, from the crate's documentation and source: it yields
/// `min(amount, ids.len())` elements taken from distinct positions of `ids`
/// (no position twice). Which positions, and in which order, is left open.
#[verifier::external_body]
pub(crate) fn choose_ids(rng: &mut ThreadRng, ids: &Vec<u64>, amount: usize) -> (picked: Vec<u64>)
    ensures
        picked@.len() == min_nat(amount as nat, ids@.len()),
        exists|positions: Seq<int>| picked_at(ids@, picked@, positions),
{
    ids.choose_multiple(rng, amount).copied().collect()
}

} // verus!
