use vstd::prelude::*;

verus! {

/// Global configuration constants for the simulation.
#[derive(Clone, Copy, Debug)]
pub struct Config {
    pub grid_size: usize,
    pub initial_population: usize,
    pub lifespan_ticks: u32,
    pub tick_interval_ms: u64,
    pub seed: u64,
    pub reproduction_radius: usize,
    pub stagnation_threshold: usize,
    pub stagnation_check_ticks: u32,
}

/// Largest grid side for which every cell index `y * grid_size + x` fits in an `i32`.
pub const MAX_GRID_SIZE: usize = 46340;

impl Config {
    /// The configurations a simulation can run with: a grid whose cell
    /// indices fit in an `i32`, non-empty unless there is no agent to place
    /// on it, and an agent store of twice the initial population that fits
    /// in memory.
    pub open spec fn valid(&self) -> bool {
        &&& self.grid_size <= MAX_GRID_SIZE
        &&& (1 <= self.grid_size || self.initial_population == 0)
        &&& self.initial_population * 2 <= usize::MAX
    }

    /// Tests [`Config::valid`].
    pub fn is_valid(&self) -> (b: bool)
        ensures
            b == self.valid(),
    {
        self.grid_size <= MAX_GRID_SIZE && (1 <= self.grid_size || self.initial_population == 0)
            && self.initial_population <= usize::MAX / 2
    }
}

impl Default for Config {
    fn default() -> (c: Self)
        ensures
            c.grid_size == 1000,
            c.initial_population == 10_000,
            c.lifespan_ticks == 500,
            c.tick_interval_ms == 500,
            c.seed == 12345,
            c.reproduction_radius == 2,
            c.stagnation_threshold == 100,
            c.stagnation_check_ticks == 20,
    {
        Config {
            grid_size: 1000,
            initial_population: 10_000,
            lifespan_ticks: 500,
            tick_interval_ms: 500,
            seed: 12345,
            reproduction_radius: 2,
            // one percent of the initial population
            stagnation_threshold: 100,
            stagnation_check_ticks: 20,
        }
    }
}

} // verus!
