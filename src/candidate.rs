//! What an optimisation subject must offer the engine.
use vstd::prelude::*;

use rand::rngs::StdRng;

verus! {

/// rand's `StdRng`, the seedable random source that every draw of the engine
/// takes; opaque here, it is only handed on to rand and to candidates.
#[verifier::external_type_specification]
#[verifier::external_body]
pub struct ExStdRng(StdRng);

/// A point of the search space.
///
/// Fitness is an integer score, lower is better. The engine asks for the
/// fitness of a candidate once, when the candidate enters a population, and
/// keeps that score beside it.
///
/// The spec functions name what the operations compute: `fitness`, `mutate`
/// and `reproduce` depend on their arguments alone. Only `random` draws.
/// Outside verified code, `score`, `mutated` and `child` are ordinary methods
/// that an impl defines by calling `fitness`, `mutate` and `reproduce`.
pub trait Candidate: Sized {
    /// The score that `fitness` gives.
    spec fn score(&self) -> u64;

    /// The variant that `mutate` gives.
    spec fn mutated(self) -> Self;

    /// The crossover that `reproduce` gives.
    spec fn child(&self, other: &Self) -> Self;

    /// The score of this candidate; lower is better.
    fn fitness(&self) -> (r: u64)
        ensures
            r == self.score(),
    ;

    /// A variant of this candidate, near it in the search space.
    fn mutate(self) -> (r: Self)
        ensures
            r == self.mutated(),
    ;

    /// A candidate drawn from the whole search space.
    fn random(rng: &mut StdRng) -> Self;

    /// The crossover of this candidate with `other`.
    fn reproduce(&self, other: &Self) -> (r: Self)
        ensures
            r == self.child(other),
    ;
}

} // verus!
