//! A generational optimisation engine over candidates ordered by fitness.
//!
//! A [`population::Population`] keeps its candidates sorted by fitness, the
//! fittest (lowest) first. A [`genalg::GenAlg`] turns one population into the
//! next by elitism, mutation, crossover and fresh random candidates.
pub mod candidate;
pub mod chance;
pub mod genalg;
pub mod population;

pub use crate::candidate::Candidate;
pub use crate::genalg::{assemble, GenAlg, SELECTION_POOL_SIZE};
pub use crate::population::{Population, PopulationError};
