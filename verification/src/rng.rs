//! Trusted wrappers around the random draws the engine makes.
//!
//! Every contract here states only what holds of every possible outcome of the
//! draw; nothing about which outcome comes back.
use vstd::prelude::*;

use rand::seq::IteratorRandom;
use rand::seq::SliceRandom;
use rand::Rng;

verus! {

/// Relies on rand's `Rng::gen_range` on a half-open `usize` range: the draw
/// lands in `[lo, hi)`.  The call panics only on an empty range, which the
/// precondition rules out.
#[verifier::external_body]
pub(crate) fn rand_range(lo: usize, hi: usize) -> (r: usize)
    requires
        lo < hi,
    ensures
        lo <= r < hi,
{
    rand::thread_rng().gen_range(lo..hi)
}

/// Relies on rand's `Rng::gen` with the `Standard` distribution on `bool`:
/// either outcome may come back, so nothing is promised of the result.
#[verifier::external_body]
pub(crate) fn rand_flip() -> bool {
    rand::thread_rng().gen()
}

/// Relies on rand's `SliceRandom::choose`: on a non-empty slice it returns
/// `Some` of one of the slice's elements.
#[verifier::external_body]
pub(crate) fn pick_value(candidates: &Vec<u64>) -> (r: u64)
    requires
        candidates@.len() > 0,
    ensures
        candidates@.contains(r),
{
    *candidates.choose(&mut rand::thread_rng()).unwrap()
}

/// Relies on rand's `SliceRandom::shuffle`: it permutes the slice in place,
/// so the multiset of elements is unchanged.
#[verifier::external_body]
pub(crate) fn shuffle_vec<T>(v: &mut Vec<T>)
    ensures
        final(v)@.to_multiset() == old(v)@.to_multiset(),
        final(v)@.len() == old(v)@.len(),
{
    v.shuffle(&mut rand::thread_rng());
}

/// Relies on rand's `IteratorRandom::choose_multiple` over `0..len`: it
/// samples without replacement, so when `amount <= len` it hands back exactly
/// `amount` pairwise distinct indices below `len`.
#[verifier::external_body]
pub(crate) fn sample_indices(len: usize, amount: usize) -> (r: Vec<usize>)
    requires
        amount <= len,
    ensures
        r@.len() == amount,
        forall|k: int| 0 <= k < r@.len() ==> r@[k] < len,
        forall|k1: int, k2: int| 0 <= k1 < k2 < r@.len() ==> r@[k1] != r@[k2],
{
    (0..len).choose_multiple(&mut rand::thread_rng(), amount)
}

} // verus!
