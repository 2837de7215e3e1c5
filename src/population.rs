//! A population: candidates kept sorted by fitness, the fittest first.
use vstd::prelude::*;

use rand::rngs::StdRng;

use crate::candidate::Candidate;

verus! {

broadcast use vstd::seq_lib::group_to_multiset_ensures;

/// Why an operation on a population could not be done.
#[derive(Clone, Copy, Debug, PartialEq, Eq, Structural)]
pub enum PopulationError {
    /// A choice or a fittest extraction was asked of a population with no
    /// candidates.
    EmptyPopulation,
}

/// Entries ordered by fitness, lowest first.
pub open spec fn sorted_by_fitness<C>(s: Seq<(u64, C)>) -> bool {
    forall|i: int, j: int| 0 <= i <= j < s.len() ==> #[trigger] s[i].0 <= #[trigger] s[j].0
}

/// The candidates of a sequence of (fitness, candidate) entries, in order.
pub open spec fn candidates_of<C>(s: Seq<(u64, C)>) -> Seq<C> {
    s.map_values(|e: (u64, C)| e.1)
}

/// The smaller of two counts.
pub open spec fn min_count(a: int, b: int) -> int {
    if a <= b { a } else { b }
}

/// Every entry's recorded fitness is its candidate's score.
pub open spec fn scored<C: Candidate>(s: Seq<(u64, C)>) -> bool {
    forall|i: int| 0 <= i < s.len() ==> #[trigger] s[i].0 == s[i].1.score()
}

/// Where an entry of fitness `k` joins `s`: after the last entry, scanning
/// from the end, whose fitness is at most `k`.
pub open spec fn insert_pos<C>(s: Seq<(u64, C)>, k: u64) -> int
    decreases s.len(),
{
    if s.len() == 0 {
        0
    } else if s.last().0 <= k {
        s.len() as int
    } else {
        insert_pos(s.drop_last(), k)
    }
}

/// `s` with `c` joined at its place: after every entry of equal or lower
/// fitness, before every entry of higher fitness.
pub open spec fn sorted_insert<C: Candidate>(s: Seq<(u64, C)>, c: C) -> Seq<(u64, C)> {
    s.insert(insert_pos(s, c.score()), (c.score(), c))
}

/// `s` with the candidates of `cs` joined one after another, in their order.
pub open spec fn insert_all<C: Candidate>(s: Seq<(u64, C)>, cs: Seq<C>) -> Seq<(u64, C)>
    decreases cs.len(),
{
    if cs.len() == 0 {
        s
    } else {
        sorted_insert(insert_all(s, cs.drop_last()), cs.last())
    }
}

proof fn lemma_candidates_insert<C>(s: Seq<(u64, C)>, p: int, e: (u64, C))
    requires
        0 <= p <= s.len(),
    ensures
        candidates_of(s.insert(p, e)) == candidates_of(s).insert(p, e.1),
{
    assert(candidates_of(s.insert(p, e)) =~= candidates_of(s).insert(p, e.1));
}

/// The fittest `k` of a sorted population are its `k` smallest by fitness:
/// each of its first `k` entries is at least as fit as every later entry, they
/// stand in ascending order, and their candidates are what `fittest(k)` gives.
pub proof fn lemma_fittest_are_smallest<C: Candidate>(p: Population<C>, k: int)
    requires
        p.wf(),
        0 <= k <= p@.len(),
    ensures
        forall|i: int, j: int| 0 <= i < k <= j < p@.len() ==> p@[i].0 <= p@[j].0,
        sorted_by_fitness(p@.take(k)),
        candidates_of(p@).take(min_count(k, p@.len() as int)) == candidates_of(p@.take(k)),
{
    assert(candidates_of(p@).take(k) =~= candidates_of(p@.take(k)));
    assert forall|i: int, j: int| 0 <= i <= j < p@.take(k).len() implies #[trigger] p@.take(k)[i].0
        <= #[trigger] p@.take(k)[j].0 by {
        assert(p@.take(k)[i] == p@[i] && p@.take(k)[j] == p@[j]);
    }
}

/// Joining the candidates of a sorted, scored sequence one after another, in
/// their order, into nothing gives the sequence back.
pub proof fn lemma_insert_all_of_sorted<C: Candidate>(s: Seq<(u64, C)>)
    requires
        sorted_by_fitness(s),
        scored(s),
    ensures
        insert_all(Seq::<(u64, C)>::empty(), candidates_of(s)) == s,
    decreases s.len(),
{
    if s.len() == 0 {
        assert(candidates_of(s) =~= Seq::<C>::empty());
    } else {
        let t = s.drop_last();
        assert forall|i: int| 0 <= i < t.len() implies #[trigger] t[i].0 == t[i].1.score() by {
            assert(t[i] == s[i]);
        }
        assert forall|i: int, j: int| 0 <= i <= j < t.len() implies #[trigger] t[i].0 <= #[trigger] t[j].0 by {
            assert(t[i] == s[i] && t[j] == s[j]);
        }
        lemma_insert_all_of_sorted(t);
        assert(candidates_of(s).drop_last() =~= candidates_of(t));
        let k = s.last().1.score();
        if t.len() > 0 {
            assert(t.last() == s[t.len() - 1]);
            assert(t.last().0 <= s.last().0);
        }
        assert(insert_pos(t, k) == t.len());
        assert(t.insert(t.len() as int, (k, s.last().1)) =~= s);
    }
}

/// Candidates with the fitness that each had when it joined, sorted ascending
/// by that fitness. Among equal fitness, a candidate that joined earlier comes
/// first.
#[derive(Clone, Debug)]
pub struct Population<C> {
    v: Vec<(u64, C)>,
}

impl<C> View for Population<C> {
    type V = Seq<(u64, C)>;

    closed spec fn view(&self) -> Seq<(u64, C)> {
        self.v@
    }
}

impl<C: Candidate> Population<C> {
    /// The population is sorted by fitness.
    pub open spec fn wf(&self) -> bool {
        sorted_by_fitness(self@) && scored(self@)
    }

    /// A population with no candidates.
    pub fn empty() -> (r: Self)
        ensures
            r.wf(),
            r@ == Seq::<(u64, C)>::empty(),
    {
        Population { v: Vec::new() }
    }

    /// Inserts `(k, c)` after every entry of fitness at most `k` and before
    /// every entry of greater fitness; returns its position.
    fn insert_scored(&mut self, k: u64, c: C) -> (p: usize)
        requires
            old(self).wf(),
            k == c.score(),
        ensures
            final(self).wf(),
            p == insert_pos(old(self)@, k),
            p <= old(self)@.len(),
            final(self)@ == old(self)@.insert(p as int, (k, c)),
            forall|i: int| 0 <= i < p ==> old(self)@[i].0 <= k,
            forall|i: int| p <= i < old(self)@.len() ==> k < old(self)@[i].0,
    {
        let mut p: usize = self.v.len();
        assert(self.v@.take(p as int) =~= self.v@);
        while p > 0 && self.v[p - 1].0 > k
            invariant
                p <= self.v@.len(),
                self.v@ == old(self)@,
                sorted_by_fitness(self.v@),
                forall|i: int| p <= i < self.v@.len() ==> k < self.v@[i].0,
                insert_pos(self.v@.take(p as int), k) == insert_pos(self.v@, k),
            decreases p,
        {
            assert(self.v@.take(p as int).drop_last() =~= self.v@.take(p - 1));
            p = p - 1;
        }
        assert(self.v@.take(0) =~= Seq::<(u64, C)>::empty());
        proof {
            if p > 0 {
                assert forall|i: int| 0 <= i < p implies self.v@[i].0 <= k by {
                    assert(self.v@[i].0 <= self.v@[p - 1].0);
                }
            }
        }
        self.v.insert(p, (k, c));
        assert forall|i: int| 0 <= i < self.v@.len() implies #[trigger] self.v@[i].0 == self.v@[i].1.score() by {
            if i > p {
                assert(self.v@[i] == old(self)@[i - 1]);
            } else if i < p {
                assert(self.v@[i] == old(self)@[i]);
            }
        }
        assert forall|i: int, j: int|
            0 <= i <= j < self.v@.len() implies #[trigger] self.v@[i].0
            <= #[trigger] self.v@[j].0 by {
            let s = old(self)@;
            if j < p {
                assert(self.v@[i] == s[i] && self.v@[j] == s[j]);
            } else if j == p {
                if i < p {
                    assert(self.v@[i] == s[i]);
                }
            } else if i > p {
                assert(self.v@[i] == s[i - 1] && self.v@[j] == s[j - 1]);
            } else if i == p {
                assert(self.v@[j] == s[j - 1]);
            } else {
                assert(self.v@[i] == s[i] && self.v@[j] == s[j - 1]);
            }
        }
        p
    }

    /// Adds one candidate and keeps the population sorted.
    pub fn push(&mut self, c: C)
        requires
            old(self).wf(),
        ensures
            final(self).wf(),
            final(self)@ == sorted_insert(old(self)@, c),
            final(self)@ == old(self)@.insert(insert_pos(old(self)@, c.score()), (c.score(), c)),
            0 <= insert_pos(old(self)@, c.score()) <= old(self)@.len(),
            forall|i: int|
                0 <= i < insert_pos(old(self)@, c.score()) ==> old(self)@[i].0 <= c.score(),
            forall|i: int|
                insert_pos(old(self)@, c.score()) <= i < old(self)@.len() ==> c.score() < old(
                    self,
                )@[i].0,
            final(self)@.len() == old(self)@.len() + 1,
            old(self)@.to_multiset().subset_of(final(self)@.to_multiset()),
            candidates_of(final(self)@).to_multiset() == candidates_of(old(self)@).to_multiset().insert(c),
    {
        let k = c.fitness();
        let ghost s = self@;
        let p = self.insert_scored(k, c);
        proof {
            lemma_candidates_insert(s, p as int, (k, c));
            assert(s.to_multiset().insert((k, c)).subset_of(self@.to_multiset()));
        }
    }

    /// Draws `n` candidates from `rng` and sorts them.
    pub fn new(n: usize, rng: &mut StdRng) -> (r: Self)
        ensures
            r.wf(),
            r@.len() == n,
    {
        let mut r = Population::empty();
        let mut i: usize = 0;
        while i < n
            invariant
                i <= n,
                r.wf(),
                r@.len() == i,
            decreases n - i,
        {
            let c = C::random(rng);
            r.push(c);
            i = i + 1;
        }
        r
    }

    /// The number of candidates.
    pub fn size(&self) -> (r: usize)
        ensures
            r == self@.len(),
    {
        self.v.len()
    }
}

impl<C: Candidate + Copy> Population<C> {
    /// Adds the `k` fittest entries of `other`, each with the fitness recorded
    /// for it there, and keeps this population sorted.
    pub fn extend_fittest(&mut self, other: &Self, k: usize)
        requires
            old(self).wf(),
            other.wf(),
            k <= other@.len(),
        ensures
            final(self).wf(),
            final(self)@ == insert_all(old(self)@, candidates_of(other@.take(k as int))),
            final(self)@.len() == old(self)@.len() + k,
            final(self)@.to_multiset() == old(self)@.to_multiset().add(other@.take(k as int).to_multiset()),
            candidates_of(final(self)@).to_multiset() == candidates_of(old(self)@).to_multiset().add(
                candidates_of(other@.take(k as int)).to_multiset(),
            ),
    {
        let mut i: usize = 0;
        while i < k
            invariant
                i <= k,
                k <= other@.len(),
                self.wf(),
                other.wf(),
                self@ == insert_all(old(self)@, candidates_of(other@.take(i as int))),
                self@.len() == old(self)@.len() + i,
                self@.to_multiset() == old(self)@.to_multiset().add(other@.take(i as int).to_multiset()),
                candidates_of(self@).to_multiset() == candidates_of(old(self)@).to_multiset().add(
                    candidates_of(other@.take(i as int)).to_multiset(),
                ),
            decreases k - i,
        {
            let key = other.v[i].0;
            let c = other.v[i].1;
            assert(other@[i as int].0 == other@[i as int].1.score());
            let ghost s = self@;
            let p = self.insert_scored(key, c);
            proof {
                lemma_candidates_insert(s, p as int, (key, c));
                assert(other@.take(i + 1) =~= other@.take(i as int).push((key, c)));
                assert(candidates_of(other@.take(i + 1)) =~= candidates_of(other@.take(i as int)).push(c));
                assert(candidates_of(other@.take(i + 1)).drop_last() =~= candidates_of(other@.take(i as int)));
            }
            i = i + 1;
        }
    }

    /// Adds every candidate of `cs` and keeps the population sorted.
    pub fn extend(&mut self, cs: Vec<C>)
        requires
            old(self).wf(),
        ensures
            final(self).wf(),
            final(self)@ == insert_all(old(self)@, cs@),
            cs@.len() == 0 ==> final(self)@ == old(self)@,
            final(self)@.len() == old(self)@.len() + cs@.len(),
            old(self)@.to_multiset().subset_of(final(self)@.to_multiset()),
            candidates_of(final(self)@).to_multiset() == candidates_of(old(self)@).to_multiset().add(
                cs@.to_multiset(),
            ),
    {
        let mut i: usize = 0;
        assert(cs@.take(0) =~= Seq::<C>::empty());
        while i < cs.len()
            invariant
                i <= cs@.len(),
                self.wf(),
                self@ == insert_all(old(self)@, cs@.take(i as int)),
                self@.len() == old(self)@.len() + i,
                old(self)@.to_multiset().subset_of(self@.to_multiset()),
                candidates_of(self@).to_multiset() == candidates_of(old(self)@).to_multiset().add(
                    cs@.take(i as int).to_multiset(),
                ),
            decreases cs@.len() - i,
        {
            let c = cs[i];
            self.push(c);
            assert(cs@.take(i + 1) =~= cs@.take(i as int).push(c));
            assert(cs@.take(i + 1).drop_last() =~= cs@.take(i as int));
            i = i + 1;
        }
        assert(cs@.take(i as int) =~= cs@);
    }

    /// A sorted population of the candidates of `cs`.
    pub fn from_iter(cs: Vec<C>) -> (r: Self)
        ensures
            r.wf(),
            r@ == insert_all(Seq::<(u64, C)>::empty(), cs@),
            r@.len() == cs@.len(),
            candidates_of(r@).to_multiset() == cs@.to_multiset(),
    {
        let mut r = Population::empty();
        proof {
            assert(candidates_of(r@) =~= Seq::<C>::empty());
        }
        r.extend(cs);
        r
    }

    /// The `k` fittest candidates, fittest first; all of them where there are
    /// fewer than `k`. Fails on a population with no candidates when `k > 0`.
    pub fn fittest(&self, k: usize) -> (r: Result<Vec<C>, PopulationError>)
        ensures
            r is Err <==> k > 0 && self@.len() == 0,
            r matches Ok(v) ==> v@ == candidates_of(self@).take(min_count(k as int, self@.len() as int)),
    {
        if k > 0 && self.v.len() == 0 {
            return Err(PopulationError::EmptyPopulation);
        }
        let n: usize = if k <= self.v.len() { k } else { self.v.len() };
        let mut out: Vec<C> = Vec::new();
        let mut i: usize = 0;
        while i < n
            invariant
                i <= n,
                n <= self@.len(),
                n == min_count(k as int, self@.len() as int),
                out@ == candidates_of(self@).take(i as int),
            decreases n - i,
        {
            out.push(self.v[i].1);
            assert(candidates_of(self@).take(i + 1) =~= candidates_of(self@).take(i as int).push(self@[i as int].1));
            i = i + 1;
        }
        Ok(out)
    }

    /// Every candidate, fittest first.
    pub fn iter(&self) -> (r: Vec<C>)
        ensures
            r@ == candidates_of(self@),
    {
        let mut out: Vec<C> = Vec::new();
        let mut i: usize = 0;
        while i < self.v.len()
            invariant
                i <= self@.len(),
                out@ == candidates_of(self@).take(i as int),
            decreases self@.len() - i,
        {
            out.push(self.v[i].1);
            assert(candidates_of(self@).take(i + 1) =~= candidates_of(self@).take(i as int).push(self@[i as int].1));
            i = i + 1;
        }
        assert(candidates_of(self@).take(i as int) =~= candidates_of(self@));
        out
    }

    /// The fitness recorded for each candidate, in the order of [`Self::iter`].
    pub fn scores(&self) -> (r: Vec<u64>)
        ensures
            r@ == self@.map_values(|e: (u64, C)| e.0),
    {
        let mut out: Vec<u64> = Vec::new();
        let mut i: usize = 0;
        while i < self.v.len()
            invariant
                i <= self@.len(),
                out@ == self@.map_values(|e: (u64, C)| e.0).take(i as int),
            decreases self@.len() - i,
        {
            out.push(self.v[i].0);
            assert(self@.map_values(|e: (u64, C)| e.0).take(i + 1) =~= self@.map_values(
                |e: (u64, C)| e.0,
            ).take(i as int).push(self@[i as int].0));
            i = i + 1;
        }
        assert(self@.map_values(|e: (u64, C)| e.0).take(i as int) =~= self@.map_values(
            |e: (u64, C)| e.0,
        ));
        out
    }

    /// A copy of this population, entry for entry, that later changes to
    /// either leave alone.
    pub fn snapshot(&self) -> (r: Self)
        ensures
            r@ == self@,
    {
        let mut out: Vec<(u64, C)> = Vec::new();
        let mut i: usize = 0;
        while i < self.v.len()
            invariant
                i <= self@.len(),
                out@ == self@.take(i as int),
            decreases self@.len() - i,
        {
            let e = (self.v[i].0, self.v[i].1);
            out.push(e);
            assert(self@.take(i + 1) =~= self@.take(i as int).push(self@[i as int]));
            i = i + 1;
        }
        assert(self@.take(i as int) =~= self@);
        Population { v: out }
    }
}

} // verus!
