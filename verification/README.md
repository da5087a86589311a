# color_evolution_sim

An agent-based simulation of evolving colours on a toroidal grid, with its
integer logic proved correct against its specification.

Agents live in a structure of arrays. Each logic tick ages them (agents older
than their lifespan die), walks each live agent on by one random step of the
Moore neighbourhood from the cell the last tick left it in, sorts the agents
by cell, lets neighbours in that order that share a cell produce an offspring on a free cell nearby, and re-seeds a
population that died out or stopped changing. A deterministic xoshiro256**
generator drives every random choice, so a run is reproducible from its seed.

## Layout

- `src/config.rs` — the configuration and its validity.
- `src/prng.rs` — the generator, specified bit for bit.
- `src/entities.rs` — slot management of the agents.
- `src/grid.rs` — toroidal wrapping and the Moore neighbourhood.
- `src/spatial.rs` — the spatial sort and the collision pairing.
- `src/simulation.rs` — the simulation as a state machine: ticks, births,
  stagnation detection and seeding.
- `src/renderer.rs` — the software framebuffer.
- `src/driver.rs` — the schedule of the main loop: when a logic tick runs,
  when a frame is drawn, what is reported and when the run stops.
- `app/` — the driver: reading the clock, printing, the colour genetics and
  the drawing arithmetic on real numbers, and the GPU pipeline set-up.

The colour genes are real numbers. The library stores them as IEEE-754 bit
patterns and, whenever the simulation needs a new gene value or the offset of a
candidate birth spot, [`Simulation::step`] returns a `Request`; the driver does
the arithmetic and answers with a `Reply`.
