//! MAX-MIN Ant System (MMAS) solver for the Traveling Salesman Problem.
//!
//! A colony of stochastic agents ("ants") repeatedly constructs candidate
//! tours, guided by a shared pheromone memory that is kept inside the bounds
//! `[tau_min, tau_max]` at all times, and by precomputed heuristic
//! desirability.  All quantities are fixed-point numbers over the unit
//! [`fixed::SCALE`] so that the numeric update rules can be verified.
use vstd::prelude::*;

pub mod fixed;
pub mod matrix;
pub mod mmas;
pub mod rng;
pub mod tsplib;

verus! {

/// Errors surfaced by the solver; every failure is terminal for the run.
#[derive(Clone, Copy, PartialEq, Eq, Structural, Debug)]
pub enum TspError {
    /// A pheromone operation was invoked before `update_pheromone_bounds`.
    BoundsNotSet,
    /// A pheromone operation was invoked before the matrix was allocated.
    NotReady,
    /// A square matrix was required but the dimensions disagree.
    NonSquare,
    /// The instance exceeds the machine limits the solver is proved for:
    /// its shape or costs pass a declared bound, or a tour is so costly
    /// that the fixed-point trail ceiling 1 / (cost * (1 - rho)) truncates
    /// to zero.
    TooLarge,
}

/// Where an ant starts its tour.
#[derive(Clone, Copy, PartialEq, Eq, Structural, Debug)]
pub enum Position {
    Origin,
    Random,
}

/// Snapshot handed to the stopping predicate after each completed iteration.
pub struct Statistics<S> {
    /// Current iteration
    iteration: Option<usize>,
    /// Solution quality indicator
    cost: Option<u64>,
    /// Domain-specific construct
    meta_inf: Option<S>,
}

impl<S> Statistics<S> {
    pub closed spec fn spec_iteration(self) -> Option<usize> {
        self.iteration
    }

    pub closed spec fn spec_cost(self) -> Option<u64> {
        self.cost
    }

    pub closed spec fn spec_meta_inf(self) -> Option<S> {
        self.meta_inf
    }

    pub fn new(iteration: Option<usize>, cost: Option<u64>, meta_inf: Option<S>) -> (r: Self)
        ensures
            r.spec_iteration() == iteration,
            r.spec_cost() == cost,
            r.spec_meta_inf() == meta_inf,
    {
        Self { iteration, cost, meta_inf }
    }

    pub fn iteration(&self) -> (r: Option<usize>)
        ensures
            r == self.spec_iteration(),
    {
        self.iteration
    }

    pub fn cost(&self) -> (r: Option<u64>)
        ensures
            r == self.spec_cost(),
    {
        self.cost
    }

    pub fn mime(&self) -> (r: Option<&S>)
        ensures
            r is Some <==> self.spec_meta_inf() is Some,
            r matches Some(v) ==> self.spec_meta_inf() == Some(*v),
    {
        self.meta_inf.as_ref()
    }
}

} // verus!
