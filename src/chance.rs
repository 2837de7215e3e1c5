//! Draws from a random source: the only places where chance enters.
use vstd::prelude::*;

use rand::rngs::StdRng;
use rand::seq::IteratorRandom;

verus! {

/// Relies on rand's `IteratorRandom::choose` over `0..n`: `None` exactly when
/// the range is empty, and otherwise one of its items.
#[verifier::external_body]
pub(crate) fn choose_index(rng: &mut StdRng, n: usize) -> (r: Option<usize>)
    ensures
        r is None <==> n == 0,
        r matches Some(i) ==> i < n,
{
    (0..n).choose(rng)
}

/// Relies on rand's `IteratorRandom::choose_multiple` over `0..n`: a reservoir
/// of distinct items of the range, `amount` of them, or all `n` where the range
/// holds fewer.
#[verifier::external_body]
pub(crate) fn choose_indices(rng: &mut StdRng, n: usize, amount: usize) -> (r: Vec<usize>)
    ensures
        r@.len() == if amount <= n { amount } else { n },
        r@.no_duplicates(),
        forall|i: int| 0 <= i < r@.len() ==> r@[i] < n,
{
    (0..n).choose_multiple(rng, amount)
}

} // verus!
