//! The generational engine: each step turns the current population into the
//! next one.
use vstd::prelude::*;

use rand::rngs::StdRng;

use crate::candidate::Candidate;
use crate::chance::{choose_index, choose_indices};
use crate::population::{
    candidates_of, insert_all, lemma_insert_all_of_sorted, min_count, scored, sorted_by_fitness, Population, PopulationError,
};

verus! {

broadcast use vstd::seq_lib::group_to_multiset_ensures;

/// How many of the fittest candidates of a population breed the next one.
pub const SELECTION_POOL_SIZE: usize = 30;

/// The size of the breeding pool drawn from a population of `old_size`.
pub open spec fn selection_size(old_size: int) -> int {
    min_count(old_size, SELECTION_POOL_SIZE as int)
}

/// How many children of crossover fill a generation: what the three slots
/// leave free of the old size, if anything.
pub open spec fn crossover_count(old_size: int, random_size: int, fittest_size: int, mutated_size: int) -> int {
    if old_size > random_size + fittest_size + mutated_size {
        old_size - (random_size + fittest_size + mutated_size)
    } else {
        0
    }
}

/// The size of the generation that follows one of `old_size`.
pub open spec fn next_size(old_size: int, random_size: int, fittest_size: int, mutated_size: int) -> int {
    random_size + min_count(fittest_size, selection_size(old_size)) + min_count(
        mutated_size,
        selection_size(old_size),
    ) + crossover_count(old_size, random_size, fittest_size, mutated_size)
}

/// `new` holds, with their recorded fitness, the elites of `old`: its
/// `fittest_size` fittest entries, as far as the breeding pool reaches.
pub open spec fn keeps_elites<C>(old: Seq<(u64, C)>, new: Seq<(u64, C)>, fittest_size: int) -> bool {
    old.take(min_count(fittest_size, selection_size(old.len() as int))).to_multiset().subset_of(
        new.to_multiset(),
    )
}

/// The elites of `old`: its `fittest_size` fittest candidates, as far as the
/// breeding pool reaches.
pub open spec fn elites<C>(old: Seq<(u64, C)>, fittest_size: int) -> Seq<C> {
    candidates_of(old.take(min_count(fittest_size, selection_size(old.len() as int))))
}

/// `r` is what [`assemble`] makes of its parts: `fresh`, joined by the elites
/// of `old`, then by `mutants`, then by `children`, each in its order.
pub open spec fn assembled_from<C: Candidate>(
    r: Seq<(u64, C)>,
    old: Seq<(u64, C)>,
    fittest_size: int,
    fresh: Seq<(u64, C)>,
    mutants: Seq<C>,
    children: Seq<C>,
) -> bool {
    r == insert_all(insert_all(insert_all(fresh, elites(old, fittest_size)), mutants), children)
}

/// `p` is a generation that `old` can breed with the slot sizes
/// `(random_size, fittest_size, mutated_size)` on the draws `fresh` (the new
/// random candidates, sorted and scored), `picks` (distinct members of the
/// breeding pool, mutated) and `pairs` (a member of `old` and a member of the
/// pool, crossed).
pub open spec fn bred_from<C: Candidate>(
    p: Seq<(u64, C)>,
    old: Seq<(u64, C)>,
    random_size: int,
    fittest_size: int,
    mutated_size: int,
    fresh: Seq<(u64, C)>,
    picks: Seq<usize>,
    pairs: Seq<(usize, usize)>,
) -> bool {
    &&& fresh.len() == random_size
    &&& sorted_by_fitness(fresh)
    &&& scored(fresh)
    &&& picks.len() == min_count(mutated_size, selection_size(old.len() as int))
    &&& picks.no_duplicates()
    &&& forall|t: int| 0 <= t < picks.len() ==> #[trigger] picks[t] < selection_size(old.len() as int)
    &&& pairs.len() == crossover_count(old.len() as int, random_size, fittest_size, mutated_size)
    &&& forall|t: int|
        0 <= t < pairs.len() ==> #[trigger] pairs[t].0 < old.len() && pairs[t].1 < selection_size(
            old.len() as int,
        )
    &&& assembled_from(
        p,
        old,
        fittest_size,
        fresh,
        picks.map_values(|i: usize| old[i as int].1.mutated()),
        pairs.map_values(|ab: (usize, usize)| old[ab.0 as int].1.child(&old[ab.1 as int].1)),
    )
}

/// `p` is a generation that `old` can breed with the slot sizes
/// `(random_size, fittest_size, mutated_size)` on some draws.
pub open spec fn breeds<C: Candidate>(
    p: Seq<(u64, C)>,
    old: Seq<(u64, C)>,
    random_size: int,
    fittest_size: int,
    mutated_size: int,
) -> bool {
    exists|fresh: Seq<(u64, C)>, picks: Seq<usize>, pairs: Seq<(usize, usize)>|
        #[trigger] bred_from(p, old, random_size, fittest_size, mutated_size, fresh, picks, pairs)
}

/// Elitism never loses ground: where a step keeps at least one elite of a
/// sorted, non-empty generation, the best fitness of the next sorted
/// generation is at most that of the old one.
pub proof fn lemma_elitism_non_regression<C>(old: Seq<(u64, C)>, new: Seq<(u64, C)>, fittest_size: int)
    requires
        sorted_by_fitness(old),
        sorted_by_fitness(new),
        old.len() > 0,
        fittest_size >= 1,
        keeps_elites(old, new, fittest_size),
    ensures
        new.len() > 0,
        new[0].0 <= old[0].0,
{
    let elites = old.take(min_count(fittest_size, selection_size(old.len() as int)));
    assert(elites[0] == old[0]);
    assert(elites.contains(old[0]));
    assert(new.to_multiset().count(old[0]) > 0);
    assert(new.contains(old[0]));
    let j = choose|j: int| 0 <= j < new.len() && new[j] == old[0];
    assert(new[0].0 <= new[j].0);
}

/// The size law: where the breeding pool holds as many candidates as the elite
/// and the mutated-elite slots ask for, the next generation has the three
/// slots' sizes together, plus what they leave free of the old size.
pub proof fn lemma_size_law(old_size: int, random_size: int, fittest_size: int, mutated_size: int)
    requires
        0 <= old_size,
        0 <= random_size,
        0 <= fittest_size <= selection_size(old_size),
        0 <= mutated_size <= selection_size(old_size),
    ensures
        next_size(old_size, random_size, fittest_size, mutated_size) == random_size + fittest_size
            + mutated_size + if old_size - (random_size + fittest_size + mutated_size) > 0 {
            old_size - (random_size + fittest_size + mutated_size)
        } else {
            0
        },
{
}

/// Determinism: on the same old generation, slot sizes and draws, two steps
/// give the same generation, entry for entry.
pub proof fn lemma_same_draws_same_generation<C: Candidate>(
    p1: Seq<(u64, C)>,
    p2: Seq<(u64, C)>,
    old: Seq<(u64, C)>,
    random_size: int,
    fittest_size: int,
    mutated_size: int,
    fresh: Seq<(u64, C)>,
    picks: Seq<usize>,
    pairs: Seq<(usize, usize)>,
)
    requires
        bred_from(p1, old, random_size, fittest_size, mutated_size, fresh, picks, pairs),
        bred_from(p2, old, random_size, fittest_size, mutated_size, fresh, picks, pairs),
    ensures
        p1 == p2,
{
}

/// Pure elitism is a fixed point: with no fresh and no mutated slots, and the
/// whole of a sorted generation of at most the pool's size kept as elites, a
/// step gives the same generation back, entry for entry.
pub proof fn lemma_pure_elitism_fixed_point<C: Candidate>(
    p: Seq<(u64, C)>,
    old: Seq<(u64, C)>,
    fresh: Seq<(u64, C)>,
    picks: Seq<usize>,
    pairs: Seq<(usize, usize)>,
)
    requires
        sorted_by_fitness(old),
        scored(old),
        old.len() <= SELECTION_POOL_SIZE,
        bred_from(p, old, 0, old.len() as int, 0, fresh, picks, pairs),
    ensures
        p == old,
{
    assert(fresh =~= Seq::<(u64, C)>::empty());
    assert(old.take(old.len() as int) =~= old);
    lemma_insert_all_of_sorted(old);
    let mutants = picks.map_values(|i: usize| old[i as int].1.mutated());
    let children = pairs.map_values(|ab: (usize, usize)| old[ab.0 as int].1.child(&old[ab.1 as int].1));
    assert(mutants.len() == 0);
    assert(children.len() == 0);
}

/// The next generation made of its parts: `fresh` random candidates, the
/// elites of `old` with their recorded fitness, and the `mutants` and
/// `children` already bred from `old`.
pub fn assemble<C: Candidate + Copy>(
    old: &Population<C>,
    fittest_size: usize,
    fresh: Population<C>,
    mutants: Vec<C>,
    children: Vec<C>,
) -> (r: Population<C>)
    requires
        fresh.wf(),
        old.wf(),
    ensures
        r.wf(),
        assembled_from(r@, old@, fittest_size as int, fresh@, mutants@, children@),
        r@.len() == fresh@.len() + min_count(fittest_size as int, selection_size(old@.len() as int))
            + mutants@.len() + children@.len(),
        fresh@.to_multiset().subset_of(r@.to_multiset()),
        keeps_elites(old@, r@, fittest_size as int),
{
    let pool: usize = if old.size() <= SELECTION_POOL_SIZE { old.size() } else { SELECTION_POOL_SIZE };
    let k: usize = if fittest_size <= pool { fittest_size } else { pool };
    let mut r = fresh;
    r.extend_fittest(old, k);
    let ghost after_elites = r@;
    r.extend(mutants);
    r.extend(children);
    proof {
        let elites = old@.take(k as int);
        assert(after_elites.to_multiset().subset_of(r@.to_multiset()));
        assert(fresh@.to_multiset().subset_of(after_elites.to_multiset()));
        assert(elites.to_multiset().subset_of(after_elites.to_multiset()));
    }
    r
}

/// The engine: three slot sizes, fixed when it is made, and the current
/// population, replaced at each step.
pub struct GenAlg<C> {
    random_size: usize,
    fittest_size: usize,
    fittest_mutated_size: usize,
    older: Population<C>,
}

impl<C: Candidate + Copy> GenAlg<C> {
    /// The current population.
    pub closed spec fn current(&self) -> Seq<(u64, C)> {
        self.older@
    }

    /// The slot sizes: fresh random candidates, elites, mutated elites.
    pub closed spec fn slots(&self) -> (usize, usize, usize) {
        (self.random_size, self.fittest_size, self.fittest_mutated_size)
    }

    /// The current population is sorted by fitness, each entry with its
    /// candidate's score.
    pub open spec fn wf(&self) -> bool {
        sorted_by_fitness(self.current()) && scored(self.current())
    }

    /// An engine whose first generation is `population`.
    pub fn from_population(
        random_size: usize,
        fittest_size: usize,
        fittest_mutated_size: usize,
        population: Population<C>,
    ) -> (r: Self)
        requires
            population.wf(),
        ensures
            r.wf(),
            r.current() == population@,
            r.slots() == (random_size, fittest_size, fittest_mutated_size),
    {
        GenAlg { random_size, fittest_size, fittest_mutated_size, older: population }
    }

    /// An engine whose first generation is `initial_population_size`
    /// candidates drawn from `rng`.
    pub fn new(
        random_size: usize,
        fittest_size: usize,
        fittest_mutated_size: usize,
        initial_population_size: usize,
        rng: &mut StdRng,
    ) -> (r: Self)
        ensures
            r.wf(),
            r.current().len() == initial_population_size,
            r.slots() == (random_size, fittest_size, fittest_mutated_size),
    {
        let older = Population::new(initial_population_size, rng);
        GenAlg { random_size, fittest_size, fittest_mutated_size, older }
    }

    /// The fittest candidate of the current population.
    pub fn solution(&self) -> (r: Result<C, PopulationError>)
        ensures
            r is Err <==> self.current().len() == 0,
            r matches Ok(c) ==> c == self.current()[0].1,
    {
        match self.older.fittest(1) {
            Ok(v) => {
                proof {
                    assert(v@[0] == candidates_of(self.older@)[0]);
                }
                Ok(v[0])
            },
            Err(e) => Err(e),
        }
    }
    /// Makes the next generation, drawing from `rng`, makes it current and
    /// returns a copy of it. Fails, leaving the engine as it was, when the
    /// current population has no candidates.
    ///
    /// The next generation holds `random_size` fresh candidates, the
    /// `fittest_size` fittest of the breeding pool, mutants of
    /// `fittest_mutated_size` distinct members of the pool, and as many
    /// children as bring it back to the old size, each the crossover of a
    /// member of the old population with a member of the pool. Where the
    /// three slots take the whole old size or more, no child is bred and the
    /// size of the population changes.
    pub fn next(&mut self, rng: &mut StdRng) -> (r: Result<Population<C>, PopulationError>)
        requires
            old(self).wf(),
        ensures
            final(self).wf(),
            final(self).slots() == old(self).slots(),
            r is Err <==> old(self).current().len() == 0,
            r is Err ==> final(self).current() == old(self).current(),
            r matches Ok(p) ==> p.wf() && p@ == final(self).current(),
            r matches Ok(p) ==> p@.len() == next_size(
                old(self).current().len() as int,
                old(self).slots().0 as int,
                old(self).slots().1 as int,
                old(self).slots().2 as int,
            ),
            r matches Ok(p) ==> keeps_elites(old(self).current(), p@, old(self).slots().1 as int),
            r matches Ok(p) ==> breeds(
                p@,
                old(self).current(),
                old(self).slots().0 as int,
                old(self).slots().1 as int,
                old(self).slots().2 as int,
            ),
    {
        let s = self.older.size();
        let selected = match self.older.fittest(SELECTION_POOL_SIZE) {
            Ok(v) => v,
            Err(e) => {
                return Err(e);
            },
        };
        let parents = self.older.iter();
        let fresh = Population::new(self.random_size, rng);

        let picks = choose_indices(rng, selected.len(), self.fittest_mutated_size);
        let mut mutants: Vec<C> = Vec::new();
        let mut i: usize = 0;
        while i < picks.len()
            invariant
                i <= picks@.len(),
                mutants@ == picks@.take(i as int).map_values(|t: usize| self.older@[t as int].1.mutated()),
                forall|t: int| 0 <= t < picks@.len() ==> picks@[t] < selected@.len(),
                selected@ == candidates_of(self.older@).take(selected@.len() as int),
                selected@.len() <= self.older@.len(),
                *self == *old(self),
            decreases picks@.len() - i,
        {
            let c = selected[picks[i]];
            mutants.push(c.mutate());
            assert(picks@.take(i + 1).map_values(|t: usize| self.older@[t as int].1.mutated())
                =~= picks@.take(i as int).map_values(|t: usize| self.older@[t as int].1.mutated()).push(c.mutated()));
            i = i + 1;
        }
        assert(picks@.take(i as int) =~= picks@);

        let rs = self.random_size;
        let fs = self.fittest_size;
        let ms = self.fittest_mutated_size;
        let cross: usize = if rs < s && fs < s - rs && ms < s - rs - fs {
            s - rs - fs - ms
        } else {
            0
        };
        let mut children: Vec<C> = Vec::new();
        let ghost mut pairs: Seq<(usize, usize)> = Seq::empty();
        let mut j: usize = 0;
        while j < cross
            invariant
                j <= cross,
                children@.len() == j,
                pairs.len() == j,
                forall|t: int|
                    0 <= t < pairs.len() ==> #[trigger] pairs[t].0 < s && pairs[t].1 < selected@.len(),
                children@ == pairs.map_values(
                    |ab: (usize, usize)| self.older@[ab.0 as int].1.child(&self.older@[ab.1 as int].1),
                ),
                parents@ == candidates_of(self.older@),
                selected@ == candidates_of(self.older@).take(selected@.len() as int),
                *self == *old(self),
                s == self.older@.len(),
                s > 0,
                parents@.len() == s,
                selected@.len() == min_count(SELECTION_POOL_SIZE as int, s as int),
            decreases cross - j,
        {
            let a = match choose_index(rng, parents.len()) {
                Some(a) => a,
                None => {
                    return Err(PopulationError::EmptyPopulation);
                },
            };
            let b = match choose_index(rng, selected.len()) {
                Some(b) => b,
                None => {
                    return Err(PopulationError::EmptyPopulation);
                },
            };
            children.push(parents[a].reproduce(&selected[b]));
            proof {
                let f = |ab: (usize, usize)| self.older@[ab.0 as int].1.child(&self.older@[ab.1 as int].1);
                assert(pairs.push((a, b)).map_values(f) =~= pairs.map_values(f).push(f((a, b))));
                pairs = pairs.push((a, b));
            }
            j = j + 1;
        }

        let ghost fresh_seq = fresh@;
        let ghost picks_seq = picks@;
        let result = assemble(&self.older, self.fittest_size, fresh, mutants, children);
        proof {
            assert(mutants@ =~= picks_seq.map_values(|t: usize| self.older@[t as int].1.mutated()));
            assert(bred_from(result@, self.older@, rs as int, fs as int, ms as int, fresh_seq, picks_seq, pairs));
        }
        self.older = result.snapshot();
        proof {
            assert(bred_from(
                result@,
                old(self).current(),
                old(self).slots().0 as int,
                old(self).slots().1 as int,
                old(self).slots().2 as int,
                fresh_seq,
                picks_seq,
                pairs,
            ));
        }
        Ok(result)
    }
}

} // verus!
