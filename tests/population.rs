use genalg::{Candidate, Population, PopulationError};
use rand::rngs::StdRng;
use rand::{Rng, SeedableRng};

#[derive(Clone, Copy, Debug, PartialEq)]
struct Num(u32);

impl Candidate for Num {
    fn score(&self) -> u64 {
        self.fitness()
    }

    fn mutated(self) -> Self {
        self.mutate()
    }

    fn child(&self, other: &Self) -> Self {
        self.reproduce(other)
    }

    fn fitness(&self) -> u64 {
        self.0 as u64
    }

    fn mutate(self) -> Self {
        Num(self.0 + 1000)
    }

    fn random(rng: &mut StdRng) -> Self {
        Num(rng.gen_range(0..500))
    }

    fn reproduce(&self, other: &Self) -> Self {
        Num((self.0 + other.0) / 2)
    }
}

#[derive(Clone, Copy, Debug, PartialEq)]
struct Tagged(u32, char);
impl Candidate for Tagged {
    fn score(&self) -> u64 {
        self.fitness()
    }

    fn mutated(self) -> Self {
        self.mutate()
    }

    fn child(&self, other: &Self) -> Self {
        self.reproduce(other)
    }

    fn fitness(&self) -> u64 {
        self.0 as u64
    }
    fn mutate(self) -> Self {
        self
    }
    fn random(_rng: &mut StdRng) -> Self {
        Tagged(0, 'r')
    }
    fn reproduce(&self, _other: &Self) -> Self {
        *self
    }
}

fn values(p: &Population<Num>) -> Vec<u32> {
    p.iter().iter().map(|c| c.0).collect()
}

fn non_decreasing(v: &[u64]) -> bool {
    v.windows(2).all(|w| w[0] <= w[1])
}

#[test]
fn new_population_is_sorted() {
    let mut rng = StdRng::seed_from_u64(7);
    let p = Population::<Num>::new(50, &mut rng);
    assert_eq!(p.size(), 50);
    let fits: Vec<u64> = p.iter().iter().map(|c| c.fitness()).collect();
    assert!(non_decreasing(&fits));
    assert_eq!(p.scores(), fits);
}

#[test]
fn push_keeps_order() {
    let mut p = Population::from_iter(vec![Num(5), Num(1), Num(9)]);
    assert_eq!(values(&p), vec![1, 5, 9]);
    p.push(Num(6));
    assert_eq!(values(&p), vec![1, 5, 6, 9]);
    p.push(Num(0));
    assert_eq!(values(&p), vec![0, 1, 5, 6, 9]);
    p.push(Num(10));
    assert_eq!(values(&p), vec![0, 1, 5, 6, 9, 10]);
    assert_eq!(p.size(), 6);
}

#[test]
fn extend_sorts_once_over_all() {
    let mut p = Population::from_iter(vec![Num(4), Num(2)]);
    p.extend(vec![Num(3), Num(8), Num(1), Num(2)]);
    assert_eq!(values(&p), vec![1, 2, 2, 3, 4, 8]);
    p.extend(Vec::new());
    assert_eq!(p.size(), 6);
}

#[test]
fn from_iter_sorts() {
    let p = Population::from_iter(vec![Num(30), Num(10), Num(20), Num(10)]);
    assert_eq!(values(&p), vec![10, 10, 20, 30]);
    assert_eq!(p.scores(), vec![10, 10, 20, 30]);
}

#[test]
fn fittest_matches_sort_and_slice() {
    let mut rng = StdRng::seed_from_u64(11);
    let p = Population::<Num>::new(40, &mut rng);
    let mut sorted: Vec<u32> = values(&p);
    sorted.sort();
    for k in [0usize, 1, 5, 17, 40] {
        let got: Vec<u32> = p.fittest(k).unwrap().iter().map(|c| c.0).collect();
        assert_eq!(got, sorted[..k].to_vec());
    }
}

#[test]
fn fittest_past_size_gives_all() {
    let p = Population::from_iter(vec![Num(3), Num(1)]);
    let got: Vec<u32> = p.fittest(10).unwrap().iter().map(|c| c.0).collect();
    assert_eq!(got, vec![1, 3]);
}

#[test]
fn fittest_of_empty_population_fails() {
    let mut rng = StdRng::seed_from_u64(1);
    let p = Population::<Num>::new(0, &mut rng);
    assert_eq!(p.size(), 0);
    assert_eq!(p.fittest(1), Err(PopulationError::EmptyPopulation));
    assert_eq!(p.fittest(0), Ok(Vec::new()));
}

#[test]
fn equal_fitness_keeps_order_of_arrival() {
    let mut p = Population::from_iter(vec![Tagged(2, 'a'), Tagged(1, 'b'), Tagged(2, 'c')]);
    p.push(Tagged(2, 'd'));
    let tags: String = p.iter().iter().map(|t| t.1).collect();
    assert_eq!(tags, "bacd");
}

#[test]
fn extend_keeps_arrival_order_among_equals() {
    let mut p = Population::from_iter(vec![Tagged(1, 'a'), Tagged(2, 'b')]);
    p.extend(vec![Tagged(1, 'c'), Tagged(2, 'd'), Tagged(1, 'e')]);
    let tags: String = p.iter().iter().map(|t| t.1).collect();
    assert_eq!(tags, "acebd");
    p.extend(Vec::new());
    let again: String = p.iter().iter().map(|t| t.1).collect();
    assert_eq!(again, "acebd");
}

#[test]
fn snapshot_is_independent() {
    let mut p = Population::from_iter(vec![Num(2), Num(4)]);
    let s = p.snapshot();
    p.push(Num(1));
    assert_eq!(values(&s), vec![2, 4]);
    assert_eq!(values(&p), vec![1, 2, 4]);
}

#[test]
fn extend_fittest_keeps_recorded_scores() {
    let other = Population::from_iter(vec![Num(7), Num(3), Num(5)]);
    let mut p = Population::from_iter(vec![Num(4)]);
    p.extend_fittest(&other, 2);
    assert_eq!(values(&p), vec![3, 4, 5]);
    assert_eq!(p.scores(), vec![3, 4, 5]);
}
