//! An agent-based colour evolution simulation on a toroidal grid.
//!
//! The integer logic of the simulation (slot management of the agents, the
//! deterministic random number generator, ageing, movement, spatial sorting,
//! collision pairing, birth-spot search, stagnation detection and the
//! framebuffer) is verified here. The colour genetics are real numbers; they
//! are computed by the application that drives the simulation, which answers
//! the requests that [`simulation::Simulation::step`] makes.

pub mod config;
pub mod prng;
pub mod entities;
pub mod grid;
pub mod spatial;
pub mod simulation;
pub mod renderer;
pub mod driver;
