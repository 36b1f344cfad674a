//! The simulation engine's settings.

use vstd::prelude::*;

verus! {

/// Deterministic simulation engine for invariant testing.
pub struct SimulationEngine {
    /// Seed of the random number generator, for reproducibility.
    pub seed: u64,
}

impl SimulationEngine {
    /// Create a new simulation engine with a seed.
    pub fn new(seed: u64) -> (e: Self)
        ensures
            e.seed == seed,
    {
        SimulationEngine { seed }
    }
}

impl Default for SimulationEngine {
    fn default() -> (e: Self)
        ensures
            e.seed == 42,
    {
        SimulationEngine { seed: 42 }
    }
}

} // verus!
