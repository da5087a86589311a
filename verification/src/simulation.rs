use vstd::prelude::*;
use crate::config::{Config, MAX_GRID_SIZE};
use crate::entities::{
    Entities,
    count_alive,
    lemma_count_alive_zero,
    DEFAULT_HUE_BITS,
    DEFAULT_SATURATION_BITS,
    DEFAULT_LIGHTNESS_BITS,
};
use crate::grid::{spec_wrap, spec_move_delta, spec_cell, wrap_coordinate, move_delta, lemma_wrap_on_ring};
use crate::prng::{
    Xoshiro256,
    PrngState,
    spec_state_after,
    spec_nth_u64,
    spec_high_u32,
    spec_unit_numerator,
    spec_in_range,
    spec_output,
    spec_advance,
    lemma_state_after_succ,
};
use crate::spatial::{
    SortedAgents,
    spec_is_spatial_order,
    spec_next_pair,
    spec_cells,
    lemma_spatial_order_unique,
    lemma_next_pair_is_first,
};

verus! {

/// Number of live slots before slot `i`: how many draws the movement phase
/// has made when it reaches slot `i`.
pub open spec fn spec_rank(alive: Seq<bool>, i: int) -> nat {
    count_alive(alive.take(i))
}

/// The direction the movement phase gives to the agent whose move uses the
/// `k`-th draw from `s`.
pub open spec fn spec_direction(s: PrngState, k: nat) -> u32 {
    (spec_high_u32(spec_nth_u64(s, k)) % 8) as u32
}

/// The coordinate an agent at `p` moves to along `delta` on a ring of `g` cells.
pub open spec fn spec_moved(p: i32, delta: int, g: int) -> i32 {
    spec_wrap(p + delta, g) as i32
}

/// An agent born at `birth` is still alive at `tick` with the given lifespan.
pub open spec fn spec_survives(tick: u32, birth: u32, lifespan: u32) -> bool {
    tick - birth <= lifespan
}

proof fn lemma_rank_step(alive: Seq<bool>, i: int)
    requires
        0 <= i < alive.len(),
    ensures
        spec_rank(alive, i + 1) == spec_rank(alive, i) + if alive[i] { 1nat } else { 0nat },
{
    assert(alive.take(i + 1).drop_last() =~= alive.take(i));
}

/// Ageing & death: every live agent older than `lifespan` ticks dies.
fn age_entities(e: &mut Entities, current_tick: u32, lifespan: u32)
    requires
        old(e).wf(),
        forall|i: int|
            0 <= i < old(e).slots() && old(e).is_alive@[i] ==> old(e).birth_tick@[i] <= current_tick,
    ensures
        final(e).wf(),
        final(e).is_alive@ == spec_aged(*old(e), current_tick, lifespan),
        final(e).pos_x == old(e).pos_x,
        final(e).pos_y == old(e).pos_y,
        final(e).target_x == old(e).target_x,
        final(e).target_y == old(e).target_y,
        final(e).hue == old(e).hue,
        final(e).saturation == old(e).saturation,
        final(e).lightness == old(e).lightness,
        final(e).birth_tick == old(e).birth_tick,
{
    let ghost o = *e;
    let n = e.is_alive.len();
    let mut i: usize = 0;
    while i < n
        invariant
            e.wf(),
            o.wf(),
            n == o.slots(),
            i <= n,
            e.slots() == n,
            forall|j: int|
                0 <= j < n && o.is_alive@[j] ==> o.birth_tick@[j] <= current_tick,
            forall|j: int|
                #![trigger e.is_alive@[j]]
                0 <= j < i ==> e.is_alive@[j] == (o.is_alive@[j] && spec_survives(current_tick, o.birth_tick@[j], lifespan)),
            forall|j: int| i <= j < n ==> e.is_alive@[j] == o.is_alive@[j],
            e.pos_x == o.pos_x,
            e.pos_y == o.pos_y,
            e.target_x == o.target_x,
            e.target_y == o.target_y,
            e.hue == o.hue,
            e.saturation == o.saturation,
            e.lightness == o.lightness,
            e.birth_tick == o.birth_tick,
        decreases n - i,
    {
        assert(e.is_alive@[i as int] == o.is_alive@[i as int]);
        if e.is_alive[i] {
            let age = current_tick - e.birth_tick[i];
            if age > lifespan {
                e.kill_agent(i);
            }
        }
        i = i + 1;
    }
    assert(e.is_alive@ =~= spec_aged(o, current_tick, lifespan));
}

/// Movement, a step of a random walk: every live agent, in slot order,
/// draws a direction of the Moore neighbourhood; the cell it targeted
/// becomes the cell it moves from, and it targets the neighbouring cell in
/// that direction, wrapped around the torus.
fn move_entities(e: &mut Entities, prng: &mut Xoshiro256, grid_size: usize)
    requires
        old(e).wf(),
        grid_size <= MAX_GRID_SIZE,
        forall|i: int|
            0 <= i < old(e).slots() && old(e).is_alive@[i] ==> 0 <= old(e).target_x@[i]
                < grid_size && 0 <= old(e).target_y@[i] < grid_size,
    ensures
        final(e).wf(),
        final(e).is_alive == old(e).is_alive,
        final(e).active_count == old(e).active_count,
        final(e).hue == old(e).hue,
        final(e).saturation == old(e).saturation,
        final(e).lightness == old(e).lightness,
        final(e).birth_tick == old(e).birth_tick,
        spec_walked(old(e).is_alive@, *old(e), *final(e), old(prng)@, grid_size as int),
        final(prng)@ == spec_state_after(old(prng)@, count_alive(old(e).is_alive@)),
{
    let ghost o = *e;
    let ghost s0 = prng@;
    let g = grid_size as i32;
    let n = e.is_alive.len();
    let mut i: usize = 0;
    while i < n
        invariant
            o.wf(),
            n == o.slots(),
            i <= n,
            g == grid_size as i32,
            grid_size <= MAX_GRID_SIZE,
            forall|j: int|
                0 <= j < n && o.is_alive@[j] ==> 0 <= o.target_x@[j] < grid_size && 0
                    <= o.target_y@[j] < grid_size,
            e.is_alive == o.is_alive,
            e.active_count == o.active_count,
            e.hue == o.hue,
            e.saturation == o.saturation,
            e.lightness == o.lightness,
            e.birth_tick == o.birth_tick,
            e.pos_x@.len() == n,
            e.pos_y@.len() == n,
            e.target_x@.len() == n,
            e.target_y@.len() == n,
            prng@ == spec_state_after(s0, spec_rank(o.is_alive@, i as int)),
            forall|j: int|
                #![trigger e.target_x@[j]]
                0 <= j < i ==> e.target_x@[j] == spec_walked_coord(
                    o.is_alive@,
                    o.target_x@,
                    s0,
                    grid_size as int,
                    j,
                    true,
                ),
            forall|j: int|
                #![trigger e.target_y@[j]]
                0 <= j < i ==> e.target_y@[j] == spec_walked_coord(
                    o.is_alive@,
                    o.target_y@,
                    s0,
                    grid_size as int,
                    j,
                    false,
                ),
            forall|j: int|
                #![trigger e.pos_x@[j]]
                0 <= j < i ==> e.pos_x@[j] == if o.is_alive@[j] {
                    o.target_x@[j]
                } else {
                    o.pos_x@[j]
                },
            forall|j: int|
                #![trigger e.pos_y@[j]]
                0 <= j < i ==> e.pos_y@[j] == if o.is_alive@[j] {
                    o.target_y@[j]
                } else {
                    o.pos_y@[j]
                },
            forall|j: int| i <= j < n ==> e.target_x@[j] == o.target_x@[j],
            forall|j: int| i <= j < n ==> e.target_y@[j] == o.target_y@[j],
            forall|j: int| i <= j < n ==> e.pos_x@[j] == o.pos_x@[j],
            forall|j: int| i <= j < n ==> e.pos_y@[j] == o.pos_y@[j],
        decreases n - i,
    {
        proof {
            lemma_rank_step(o.is_alive@, i as int);
        }
        if e.is_alive[i] {
            // Moore's neighbourhood: 8 directions
            let ghost k = spec_rank(o.is_alive@, i as int);
            let dir = prng.next_u32() % 8;
            proof {
                lemma_state_after_succ(s0, k);
            }
            let (dx, dy) = move_delta(dir);
            let ox = e.target_x[i];
            let oy = e.target_y[i];
            let nx = wrap_coordinate((ox + dx) as i64, g);
            let ny = wrap_coordinate((oy + dy) as i64, g);
            // the agent now moves from where the last move took it
            e.pos_x.set(i, ox);
            e.pos_y.set(i, oy);
            e.target_x.set(i, nx);
            e.target_y.set(i, ny);
        }
        i = i + 1;
    }
    proof {
        assert(o.is_alive@.take(n as int) =~= o.is_alive@);
    }
}

/// The coordinate (`targets` holding the `x` or the `y` coordinates) agent
/// `i` targets after the movement phase, drawing from `s` with the live
/// agents `alive`: a live agent steps from its last target along its drawn
/// direction; any other keeps its target.
pub open spec fn spec_walked_coord(
    alive: Seq<bool>,
    targets: Seq<i32>,
    s: PrngState,
    g: int,
    i: int,
    x: bool,
) -> i32 {
    let delta = spec_move_delta(spec_direction(s, spec_rank(alive, i)));
    if !alive[i] {
        targets[i]
    } else if x {
        spec_moved(targets[i], delta.0, g)
    } else {
        spec_moved(targets[i], delta.1, g)
    }
}

/// `f` holds the cells of the agents of `e` after the movement phase, with
/// the live agents `alive`, drawing from `s` on a grid of side `g`: every
/// live agent moves from its last target, which becomes its position, to
/// the next cell of its random walk; other slots keep their cells.
pub open spec fn spec_walked(alive: Seq<bool>, e: Entities, f: Entities, s: PrngState, g: int) -> bool {
    &&& f.pos_x@.len() == e.slots()
    &&& f.pos_y@.len() == e.slots()
    &&& f.target_x@.len() == e.slots()
    &&& f.target_y@.len() == e.slots()
    &&& forall|i: int|
        #![trigger f.pos_x@[i]]
        0 <= i < e.slots() ==> f.pos_x@[i] == if alive[i] {
            e.target_x@[i]
        } else {
            e.pos_x@[i]
        }
    &&& forall|i: int|
        #![trigger f.pos_y@[i]]
        0 <= i < e.slots() ==> f.pos_y@[i] == if alive[i] {
            e.target_y@[i]
        } else {
            e.pos_y@[i]
        }
    &&& forall|i: int|
        #![trigger f.target_x@[i]]
        0 <= i < e.slots() ==> f.target_x@[i] == spec_walked_coord(alive, e.target_x@, s, g, i, true)
    &&& forall|i: int|
        #![trigger f.target_y@[i]]
        0 <= i < e.slots() ==> f.target_y@[i] == spec_walked_coord(alive, e.target_y@, s, g, i, false)
}

/// The offset `(dx, dy)` of a candidate birth spot stays within `radius`
/// cells of the parent on each axis (a negative radius counts by its size).
pub open spec fn spec_offset_within(dx: i32, dy: i32, radius: i32) -> bool {
    let r = if radius < 0 {
        -(radius as int)
    } else {
        radius as int
    };
    &&& -r <= dx <= r
    &&& -r <= dy <= r
}

/// Tests [`spec_offset_within`].
fn offset_within(dx: i32, dy: i32, radius: i32) -> (b: bool)
    ensures
        b == spec_offset_within(dx, dy, radius),
{
    let r: i64 = if radius < 0 {
        -(radius as i64)
    } else {
        radius as i64
    };
    -r <= dx as i64 && dx as i64 <= r && -r <= dy as i64 && dy as i64 <= r
}

/// How much the population changed over a tick, as the stagnation check
/// measures it: the distance between the two counts taken as `i32`.
pub open spec fn spec_population_change(active: usize, previous: usize) -> int {
    let d = (active as i32) as int - (previous as i32) as int;
    if d < 0 {
        -d
    } else {
        d
    }
}

/// The stagnation counter after a tick with `active` agents, and whether
/// the population must be re-seeded (see [`stagnation_update`]).
pub open spec fn spec_stagnation_update(
    active: usize,
    previous: usize,
    counter: u32,
    threshold: usize,
    check_ticks: u32,
) -> (u32, bool) {
    if spec_population_change(active, previous) <= threshold {
        if counter + 1 > check_ticks {
            (0u32, true)
        } else {
            ((counter + 1) as u32, false)
        }
    } else {
        (0u32, false)
    }
}

/// Stagnation detection for a non-empty population: returns the new
/// stagnation counter and whether the population must be re-seeded. A
/// change of at most `threshold` agents counts one more stagnant tick; more
/// than `check_ticks` stagnant ticks in a row trigger a re-seed and restart
/// the count; a larger change restarts the count.
pub fn stagnation_update(
    active: usize,
    previous: usize,
    counter: u32,
    threshold: usize,
    check_ticks: u32,
) -> (r: (u32, bool))
    requires
        counter < u32::MAX,
    ensures
        r == spec_stagnation_update(active, previous, counter, threshold, check_ticks),
        r.0 <= check_ticks,
{
    let d = (active as i32) as i64 - (previous as i32) as i64;
    let diff = if d < 0 {
        -d
    } else {
        d
    };
    if diff as u64 <= threshold as u64 {
        let c = counter + 1;
        if c > check_ticks {
            (0, true)
        } else {
            (c, false)
        }
    } else {
        (0, false)
    }
}

/// Stagnation counting, for population counts that fit in an `i32`: a
/// change of more than `threshold` agents either way (growth as much as
/// decline) restarts the count and never re-seeds; a change of at most
/// `threshold` agents either way counts one more stagnant tick, and the
/// tick after `check_ticks` stagnant ones re-seeds and restarts the count.
pub proof fn lemma_stagnation_update_counts_small_changes(
    active: usize,
    previous: usize,
    counter: u32,
    threshold: usize,
    check_ticks: u32,
)
    requires
        active <= i32::MAX,
        previous <= i32::MAX,
    ensures
        active > previous + threshold || previous > active + threshold ==> spec_stagnation_update(
            active,
            previous,
            counter,
            threshold,
            check_ticks,
        ) == (0u32, false),
        previous <= active + threshold && active <= previous + threshold ==> spec_stagnation_update(
            active,
            previous,
            counter,
            threshold,
            check_ticks,
        ) == if counter + 1 > check_ticks {
            (0u32, true)
        } else {
            ((counter + 1) as u32, false)
        },
{
    assert((active as i32) as int == active as int);
    assert((previous as i32) as int == previous as int);
}

/// Colour genes of one agent: the IEEE-754 single-precision bit patterns
/// of its hue (degrees), saturation and lightness.
#[derive(Clone, Copy, Debug, PartialEq, Eq, Structural)]
pub struct Genes {
    pub hue: u32,
    pub saturation: u32,
    pub lightness: u32,
}

/// Number of candidate spots the birth-spot search tries at most.
pub const SPOT_ATTEMPTS: u32 = 5;

/// Work on real numbers the simulation needs from its driver before it can
/// go on.
#[derive(Clone, Copy, Debug, PartialEq, Eq, Structural)]
pub enum Request {
    /// Genes of a founder agent: hue class 0, 1 or 2 (red, green, blue), and
    /// the 24-bit numerators of the unit fractions that set its saturation
    /// and lightness.
    SeedGenes { hue_class: u32, saturation_draw: u32, lightness_draw: u32 },
    /// Genes of the offspring of two parents, with the 24-bit numerators of
    /// the unit fractions that perturb its saturation and lightness.
    BlendGenes { first: Genes, second: Genes, saturation_draw: u32, lightness_draw: u32 },
    /// The offset from the parent's cell of a candidate birth spot, at
    /// distance `radius` in the direction given by the 24-bit numerator of a
    /// unit fraction of a full turn.
    SpotOffset { angle_draw: u32, radius: i32 },
    /// The simulation is idle: the tick, or the seeding, is complete.
    Done,
}

/// The driver's answer to the last [`Request`].
#[derive(Clone, Copy, Debug, PartialEq, Eq, Structural)]
pub enum Reply {
    /// Answer to `Done`, and the first call after a tick starts or a
    /// simulation is created.
    Proceed,
    /// Answer to `SeedGenes` and `BlendGenes`.
    Genes(Genes),
    /// Answer to `SpotOffset`: the offset, each coordinate truncated to an integer.
    Offset { dx: i32, dy: i32 },
}

/// Where the simulation stands within a tick or a seeding.
#[derive(Clone, Copy, Debug)]
pub enum Phase {
    /// Between ticks.
    Idle,
    /// Seeding the population: `remaining` founders still to draw; `pending`
    /// holds the cell of the founder whose genes were requested;
    /// `restore` is the population count to record afterwards, if it is not
    /// the seeded count.
    Populating { remaining: usize, restore: Option<usize>, pending: Option<(i32, i32)> },
    /// Looking for the next pair of agents sharing a cell, from position `pos`
    /// of the spatial order.
    Scanning { pos: usize },
    /// Searching a birth spot for the pair at `pos` and `pos + 1`; `attempts`
    /// candidates were rejected so far and one more was requested.
    Searching { pos: usize, saturation_draw: u32, lightness_draw: u32, attempts: u32 },
    /// Waiting for the genes of the offspring of the pair at `pos` and `pos + 1`,
    /// to be born at `(x, y)`.
    Placing { pos: usize, saturation_draw: u32, lightness_draw: u32, x: i32, y: i32 },
}

/// The agent-based simulation: agents age, move, pair up on shared cells and
/// give birth nearby; a population that dies out or stagnates is re-seeded.
pub struct Simulation {
    config: Config,
    entities: Entities,
    current_tick: u32,
    previous_active_count: usize,
    stagnation_counter: u32,
    prng: Xoshiro256,
    // Spatially sorted copy of the live agents (for collision detection)
    sorted: SortedAgents,
    phase: Phase,
}

impl Simulation {
    /// The configuration.
    pub closed spec fn spec_config(&self) -> Config {
        self.config
    }

    /// The agents.
    pub closed spec fn spec_entities(&self) -> Entities {
        self.entities
    }

    /// The number of ticks run.
    pub closed spec fn spec_tick(&self) -> u32 {
        self.current_tick
    }

    /// The state of the generator.
    pub closed spec fn spec_prng(&self) -> PrngState {
        self.prng@
    }

    /// Where the simulation stands.
    pub closed spec fn spec_phase(&self) -> Phase {
        self.phase
    }

    /// The slots of the spatial order of the last tick.
    pub closed spec fn spec_sorted_indices(&self) -> Seq<usize> {
        self.sorted.indices@
    }

    /// The population count the stagnation check compares with.
    pub closed spec fn spec_previous_active_count(&self) -> usize {
        self.previous_active_count
    }

    /// The number of stagnant ticks in a row.
    pub closed spec fn spec_stagnation_counter(&self) -> u32 {
        self.stagnation_counter
    }

    /// Every live agent sits on the grid and was born no later than now.
    pub closed spec fn agents_placed(&self) -> bool {
        let g = self.config.grid_size as int;
        let e = self.entities;
        forall|i: int|
            #![trigger e.is_alive@[i]]
            0 <= i < e.slots() && e.is_alive@[i] ==> {
                &&& 0 <= e.pos_x@[i] < g
                &&& 0 <= e.pos_y@[i] < g
                &&& 0 <= e.target_x@[i] < g
                &&& 0 <= e.target_y@[i] < g
                &&& e.birth_tick@[i] <= self.current_tick
            }
    }

    /// The internal invariant.
    pub closed spec fn wf(&self) -> bool {
        let g = self.config.grid_size as int;
        &&& self.config.valid()
        &&& self.entities.wf()
        &&& self.agents_placed()
        &&& self.stagnation_counter <= self.config.stagnation_check_ticks
        &&& self.stagnation_counter <= self.current_tick
        &&& (self.phase is Scanning || self.phase is Searching || self.phase is Placing)
            ==> self.stagnation_counter < self.current_tick
        &&& match self.phase {
            Phase::Idle => self.config.initial_population >= 1 ==> self.entities.active_count >= 1,
            Phase::Populating { remaining, restore, pending } => {
                &&& self.entities.active_count + remaining + (if pending is Some {
                    1int
                } else {
                    0int
                }) == self.config.initial_population
                &&& pending matches Some((x, y)) ==> 0 <= x < g && 0 <= y < g
            },
            Phase::Scanning { pos } => self.sorted.mirrors(&self.entities) && pos
                <= self.sorted.len(),
            Phase::Searching { pos, saturation_draw, lightness_draw, attempts } => self.sorted.mirrors(
                &self.entities,
            ) && pos + 1 < self.sorted.len() && attempts < SPOT_ATTEMPTS,
            Phase::Placing { pos, saturation_draw, lightness_draw, x, y } => self.sorted.mirrors(
                &self.entities,
            ) && pos + 1 < self.sorted.len() && 0 <= x < g && 0 <= y < g,
        }
    }

    /// `reply` answers the request the simulation last made.
    pub closed spec fn spec_accepts(&self, reply: Reply) -> bool {
        match self.phase {
            Phase::Populating { remaining, restore, pending } => if pending is Some {
                reply is Genes
            } else {
                reply is Proceed
            },
            Phase::Placing { .. } => reply is Genes,
            Phase::Searching { .. } => reply matches Reply::Offset { dx, dy } && spec_offset_within(
                dx,
                dy,
                self.config.reproduction_radius as i32,
            ),
            _ => reply is Proceed,
        }
    }

    /// Tests [`Simulation::spec_accepts`].
    pub fn accepts(&self, reply: &Reply) -> (b: bool)
        ensures
            b == self.spec_accepts(*reply),
    {
        match self.phase {
            Phase::Populating { pending: Some(_), .. } | Phase::Placing { .. } => {
                matches!(reply, Reply::Genes(_))
            },
            Phase::Searching { .. } => match *reply {
                Reply::Offset { dx, dy } => offset_within(
                    dx,
                    dy,
                    self.config.reproduction_radius as i32,
                ),
                _ => false,
            },
            _ => matches!(reply, Reply::Proceed),
        }
    }

    /// The simulation waits for the next tick.
    pub fn is_idle(&self) -> (b: bool)
        ensures
            b == (self.spec_phase() is Idle),
    {
        matches!(self.phase, Phase::Idle)
    }

    pub fn get_entities(&self) -> (e: &Entities)
        ensures
            *e == self.spec_entities(),
    {
        &self.entities
    }

    pub fn get_current_tick(&self) -> (t: u32)
        ensures
            t == self.spec_tick(),
    {
        self.current_tick
    }

    pub fn get_config(&self) -> (c: Config)
        ensures
            c == self.spec_config(),
    {
        self.config
    }
}

/// `s` is a new simulation of `config`, about to seed its initial
/// population: the store holds twice the initial population of unused
/// slots with default data, the generator is seeded with `config.seed`,
/// the counters are zero and nothing is sorted.
pub open spec fn spec_fresh(s: Simulation, config: Config) -> bool {
    let n = (config.initial_population * 2) as nat;
    let e = s.spec_entities();
    let o = s.spec_sorted();
    &&& s.spec_config() == config
    &&& s.spec_tick() == 0
    &&& s.spec_previous_active_count() == 0
    &&& s.spec_stagnation_counter() == 0
    &&& s.spec_prng() == Xoshiro256::new_state(config.seed)
    &&& s.spec_phase() == (Phase::Populating {
        remaining: config.initial_population,
        restore: None,
        pending: None,
    })
    &&& e.active_count == 0
    &&& e.pos_x@ == Seq::new(n, |i: int| 0i32)
    &&& e.pos_y@ == Seq::new(n, |i: int| 0i32)
    &&& e.target_x@ == Seq::new(n, |i: int| 0i32)
    &&& e.target_y@ == Seq::new(n, |i: int| 0i32)
    &&& e.hue@ == Seq::new(n, |i: int| DEFAULT_HUE_BITS)
    &&& e.saturation@ == Seq::new(n, |i: int| DEFAULT_SATURATION_BITS)
    &&& e.lightness@ == Seq::new(n, |i: int| DEFAULT_LIGHTNESS_BITS)
    &&& e.birth_tick@ == Seq::new(n, |i: int| 0u32)
    &&& e.is_alive@ == Seq::new(n, |i: int| false)
    &&& o.indices@ == Seq::<usize>::empty()
    &&& o.x@ == Seq::<i32>::empty()
    &&& o.y@ == Seq::<i32>::empty()
    &&& o.hue@ == Seq::<u32>::empty()
    &&& o.saturation@ == Seq::<u32>::empty()
    &&& o.lightness@ == Seq::<u32>::empty()
    &&& o.birth@ == Seq::<u32>::empty()
    &&& o.pos_x@ == Seq::<i32>::empty()
    &&& o.pos_y@ == Seq::<i32>::empty()
}

impl Simulation {
    /// A simulation of `config`, about to seed its initial population: the
    /// store holds twice the initial population of unused slots, and the
    /// generator is seeded with `config.seed`. The driver completes the
    /// seeding through [`Simulation::step`], starting with `Reply::Proceed`.
    pub fn new(config: Config) -> (s: Self)
        requires
            config.valid(),
        ensures
            s.wf(),
            spec_fresh(s, config),
    {
        // Buffer for births
        let capacity = config.initial_population * 2;
        let entities = Entities::new(capacity);
        proof {
            lemma_count_alive_zero(entities.is_alive@);
        }
        Simulation {
            config,
            entities,
            current_tick: 0,
            previous_active_count: 0,
            stagnation_counter: 0,
            prng: Xoshiro256::new(config.seed),
            sorted: SortedAgents::empty(),
            phase: Phase::Populating {
                remaining: config.initial_population,
                restore: None,
                pending: None,
            },
        }
    }
}

/// Which agents survive ageing at `tick`.
pub open spec fn spec_aged(e: Entities, tick: u32, lifespan: u32) -> Seq<bool> {
    Seq::new(e.slots(), |i: int| e.is_alive@[i] && spec_survives(tick, e.birth_tick@[i], lifespan))
}

/// The first part of a tick, from `o` to `f`: the tick counter advances;
/// ageing & death; movement; spatial sorting; the collision phase then
/// starts at the beginning of the spatial order.
pub open spec fn spec_tick_start(o: Simulation, f: Simulation) -> bool {
    let e0 = o.spec_entities();
    let e = f.spec_entities();
    let g = o.spec_config().grid_size as int;
    let alive = spec_aged(e0, f.spec_tick(), o.spec_config().lifespan_ticks);
    let s0 = o.spec_prng();
    &&& f.spec_tick() == o.spec_tick() + 1
    &&& f.spec_config() == o.spec_config()
    &&& f.spec_previous_active_count() == o.spec_previous_active_count()
    &&& f.spec_stagnation_counter() == o.spec_stagnation_counter()
    &&& f.spec_phase() == (Phase::Scanning { pos: 0 })
    &&& e.is_alive@ == alive
    &&& e.active_count == count_alive(alive)
    &&& e.hue == e0.hue
    &&& e.saturation == e0.saturation
    &&& e.lightness == e0.lightness
    &&& e.birth_tick == e0.birth_tick
    &&& spec_walked(alive, e0, e, s0, g)
    &&& f.spec_prng() == spec_state_after(s0, count_alive(alive))
    &&& spec_is_spatial_order(
        f.spec_sorted_indices(),
        alive,
        e.target_x@,
        e.target_y@,
        g,
    )
    &&& f.spec_sorted().mirrors(&e)
}

impl Simulation {
    /// First part of a tick: the tick counter advances; ageing & death;
    /// movement; spatial sorting. The collision phase then starts at the
    /// beginning of the spatial order.
    pub fn begin_tick(&mut self)
        requires
            old(self).wf(),
            old(self).spec_phase() is Idle,
            old(self).spec_tick() < u32::MAX,
        ensures
            final(self).wf(),
            spec_tick_start(*old(self), *final(self)),
    {
        self.current_tick = self.current_tick + 1;
        // Step 1: Aging & Death
        age_entities(&mut self.entities, self.current_tick, self.config.lifespan_ticks);
        // Step 2: Movement Phase
        move_entities(&mut self.entities, &mut self.prng, self.config.grid_size);
        // Step 3: Spatial Sorting
        self.sorted = SortedAgents::snapshot(&self.entities, self.config.grid_size);
        self.phase = Phase::Scanning { pos: 0 };
    }
}

/// Some agent of the spatial order stands on `cell`.
pub open spec fn spec_occupied(s: SortedAgents, g: int, cell: int) -> bool {
    exists|k: int| 0 <= k < s.len() && s.cell(k, g) == cell
}

/// The birth spot the candidate at offset `(dx, dy)` from the agent at
/// position `pos` of the order gives: the wrapped cell, unless an agent of
/// the order stands on it.
pub open spec fn spec_birth_spot(s: SortedAgents, g: int, pos: int, dx: i32, dy: i32) -> Option<
    (i32, i32),
> {
    let nx = spec_wrap(s.x@[pos] + dx, g);
    let ny = spec_wrap(s.y@[pos] + dy, g);
    if spec_occupied(s, g, spec_cell(nx, ny, g)) {
        None
    } else {
        Some((nx as i32, ny as i32))
    }
}

impl Simulation {
    /// The genes of the agent at position `k` of the spatial order.
    pub open spec fn spec_sorted_genes(&self, k: int) -> Genes {
        Genes {
            hue: self.spec_sorted().hue@[k],
            saturation: self.spec_sorted().saturation@[k],
            lightness: self.spec_sorted().lightness@[k],
        }
    }

    /// The cells of the spatial order.
    pub open spec fn spec_sorted_cells(&self) -> Seq<int> {
        spec_cells(&self.spec_sorted(), self.spec_config().grid_size as int)
    }

    /// The birth spot for candidate offset `(dx, dy)` from position `pos`.
    pub open spec fn spec_spot(&self, pos: int, dx: i32, dy: i32) -> Option<(i32, i32)> {
        spec_birth_spot(self.spec_sorted(), self.spec_config().grid_size as int, pos, dx, dy)
    }

    /// The live agents of the spatial order sit on the grid.
    closed spec fn sorted_on_grid(&self) -> bool {
        &&& self.sorted.mirrors(&self.entities)
        &&& self.entities.wf()
        &&& self.agents_placed()
        &&& self.config.grid_size <= MAX_GRID_SIZE
    }

    proof fn lemma_sorted_cell_range(&self, k: int)
        requires
            self.sorted_on_grid(),
            0 <= k < self.sorted.len(),
        ensures
            0 <= self.sorted.x@[k] < self.config.grid_size,
            0 <= self.sorted.y@[k] < self.config.grid_size,
            0 <= self.sorted.cell(k, self.config.grid_size as int) < self.config.grid_size
                * self.config.grid_size,
            self.config.grid_size * self.config.grid_size <= i32::MAX,
    {
        let i = self.sorted.indices@[k] as int;
        assert(self.entities.is_alive@[i]);
        let g = self.config.grid_size as int;
        let x = self.sorted.x@[k] as int;
        let y = self.sorted.y@[k] as int;
        assert(0 <= y * g + x < g * g) by (nonlinear_arith)
            requires
                0 <= x < g,
                0 <= y < g,
        ;
        assert(g * g <= i32::MAX) by (nonlinear_arith)
            requires
                1 <= g <= MAX_GRID_SIZE,
        ;
    }

    /// The first pair of agents sharing a cell at or after position `pos`.
    fn find_pair(&self, pos: usize) -> (r: Option<usize>)
        requires
            self.sorted_on_grid(),
            pos <= self.sorted.len(),
        ensures
            r matches Some(p) ==> spec_next_pair(self.spec_sorted_cells(), pos as int) == Some(
                p as int,
            ) && p + 1 < self.sorted.len(),
            r is None ==> spec_next_pair(self.spec_sorted_cells(), pos as int) is None,
    {
        let g = self.config.grid_size as i32;
        let n = self.sorted.indices.len();
        let ghost cells = self.spec_sorted_cells();
        let mut i = pos;
        while i < n && n - i > 1
            invariant
                self.sorted_on_grid(),
                g == self.config.grid_size,
                n == self.sorted.len(),
                cells == self.spec_sorted_cells(),
                pos <= i <= n,
                spec_next_pair(cells, i as int) == spec_next_pair(cells, pos as int),
            decreases n - i,
        {
            proof {
                self.lemma_sorted_cell_range(i as int);
                self.lemma_sorted_cell_range(i + 1);
            }
            let curr_grid = self.sorted.y[i] * g + self.sorted.x[i];
            let next_grid = self.sorted.y[i + 1] * g + self.sorted.x[i + 1];
            if curr_grid == next_grid {
                return Some(i);
            }
            i = i + 1;
        }
        None
    }

    /// Some agent of the spatial order targets cell `grid_idx`.
    fn is_occupied(&self, grid_idx: i32) -> (b: bool)
        requires
            self.sorted_on_grid(),
        ensures
            b == spec_occupied(self.sorted, self.config.grid_size as int, grid_idx as int),
    {
        let g = self.config.grid_size as i32;
        let n = self.sorted.indices.len();
        let mut k: usize = 0;
        while k < n
            invariant
                self.sorted_on_grid(),
                g == self.config.grid_size,
                n == self.sorted.len(),
                k <= n,
                forall|j: int|
                    0 <= j < k ==> self.sorted.cell(j, self.config.grid_size as int) != grid_idx,
            decreases n - k,
        {
            let idx = self.sorted.indices[k];
            proof {
                self.lemma_sorted_cell_range(k as int);
                assert(self.sorted.indices@[k as int] == idx);
            }
            let agent_grid = self.entities.target_y[idx] * g + self.entities.target_x[idx];
            if agent_grid == grid_idx {
                return true;
            }
            k = k + 1;
        }
        false
    }

    /// The birth spot for the candidate offset `(dx, dy)` from the agent at `pos`.
    fn birth_spot(&self, pos: usize, dx: i32, dy: i32) -> (r: Option<(i32, i32)>)
        requires
            self.sorted_on_grid(),
            pos < self.sorted.len(),
        ensures
            r == self.spec_spot(pos as int, dx, dy),
            r matches Some((x, y)) ==> 0 <= x < self.config.grid_size && 0 <= y < self.config.grid_size,
    {
        let g = self.config.grid_size as i32;
        proof {
            self.lemma_sorted_cell_range(pos as int);
        }
        let nx = wrap_coordinate(self.sorted.x[pos] as i64 + dx as i64, g);
        let ny = wrap_coordinate(self.sorted.y[pos] as i64 + dy as i64, g);
        assert(0 <= ny * g + nx < g * g) by (nonlinear_arith)
            requires
                0 <= nx < g,
                0 <= ny < g,
        ;
        let grid_idx = ny * g + nx;
        if !self.is_occupied(grid_idx) {
            Some((nx, ny))
        } else {
            None
        }
    }

    /// The genes of the agent at position `k` of the spatial order.
    fn sorted_genes(&self, k: usize) -> (genes: Genes)
        requires
            self.sorted.mirrors(&self.entities),
            k < self.sorted.len(),
        ensures
            genes == self.spec_sorted_genes(k as int),
    {
        Genes {
            hue: self.sorted.hue[k],
            saturation: self.sorted.saturation[k],
            lightness: self.sorted.lightness[k],
        }
    }
}

/// The founder the seeding draws from state `s` on a grid of side `g`: its
/// cell, and the request for its genes (five draws: x, y, hue class,
/// saturation, lightness).
pub open spec fn spec_founder(s: PrngState, g: usize) -> (i32, i32, Request) {
    (
        spec_in_range(spec_nth_u64(s, 0), 0, g) as i32,
        spec_in_range(spec_nth_u64(s, 1), 0, g) as i32,
        Request::SeedGenes {
            hue_class: (spec_high_u32(spec_nth_u64(s, 2)) % 3) as u32,
            saturation_draw: spec_unit_numerator(spec_nth_u64(s, 3)),
            lightness_draw: spec_unit_numerator(spec_nth_u64(s, 4)),
        },
    )
}

impl Simulation {
    /// Seeding: draws the next founder and asks for its genes, or, with no
    /// founder left, records the population count and goes idle.
    fn populate_next(&mut self) -> (req: Request)
        requires
            old(self).wf(),
            old(self).phase matches Phase::Populating { pending: None, .. },
        ensures
            final(self).wf(),
            final(self).config == old(self).config,
            final(self).current_tick == old(self).current_tick,
            final(self).entities == old(self).entities,
            final(self).sorted == old(self).sorted,
            final(self).stagnation_counter == old(self).stagnation_counter,
            spec_seeding(*old(self), *final(self), req),
    {
        let ghost s0 = self.prng@;
        if let Phase::Populating { remaining, restore, pending: None } = self.phase {
            if remaining > 0 {
                let g = self.config.grid_size;
                let x = self.prng.next_in_range(0, g) as i32;
                proof { lemma_state_after_succ(s0, 0); }
                let y = self.prng.next_in_range(0, g) as i32;
                proof { lemma_state_after_succ(s0, 1); }
                let hue_class = self.prng.next_u32() % 3;
                proof { lemma_state_after_succ(s0, 2); }
                let saturation_draw = self.prng.next_unit_numerator();
                proof { lemma_state_after_succ(s0, 3); }
                let lightness_draw = self.prng.next_unit_numerator();
                proof { lemma_state_after_succ(s0, 4); }
                self.phase = Phase::Populating {
                    remaining: remaining - 1,
                    restore,
                    pending: Some((x, y)),
                };
                return Request::SeedGenes { hue_class, saturation_draw, lightness_draw };
            }
            self.previous_active_count = match restore {
                Some(a) => a,
                None => self.entities.active_count,
            };
            self.phase = Phase::Idle;
        }
        Request::Done
    }
}

/// `e1` is `e0` with every agent dead.
pub open spec fn spec_reset(e0: Entities, e1: Entities) -> bool {
    &&& e1.wf()
    &&& e1.is_alive@ == Seq::new(e0.slots(), |i: int| false)
    &&& e1.active_count == 0
    &&& e1.pos_x == e0.pos_x
    &&& e1.pos_y == e0.pos_y
    &&& e1.target_x == e0.target_x
    &&& e1.target_y == e0.target_y
    &&& e1.hue == e0.hue
    &&& e1.saturation == e0.saturation
    &&& e1.lightness == e0.lightness
    &&& e1.birth_tick == e0.birth_tick
}

/// The stagnation check at the end of the collision phase, from `o` to `f`:
/// an extinct population is re-seeded; otherwise the stagnation counter is
/// updated, and a stagnant population is re-seeded too (recording the count
/// before re-seeding), while any other goes idle recording its count.
pub open spec fn spec_stagnation_check(o: Simulation, f: Simulation) -> bool {
    let c = o.spec_config();
    let e = o.spec_entities();
    let active = e.active_count;
    let u = spec_stagnation_update(
        active,
        o.spec_previous_active_count(),
        o.spec_stagnation_counter(),
        c.stagnation_threshold,
        c.stagnation_check_ticks,
    );
    &&& f.spec_config() == c
    &&& f.spec_tick() == o.spec_tick()
    &&& f.spec_prng() == o.spec_prng()
    &&& f.spec_sorted() == o.spec_sorted()
    &&& active == 0 ==> {
        &&& spec_reset(e, f.spec_entities())
        &&& f.spec_phase() == (Phase::Populating {
            remaining: c.initial_population,
            restore: None,
            pending: None,
        })
        &&& f.spec_previous_active_count() == o.spec_previous_active_count()
        &&& f.spec_stagnation_counter() == o.spec_stagnation_counter()
    }
    &&& active != 0 && u.1 ==> {
        &&& spec_reset(e, f.spec_entities())
        &&& f.spec_phase() == (Phase::Populating {
            remaining: c.initial_population,
            restore: Some(active),
            pending: None,
        })
        &&& f.spec_previous_active_count() == o.spec_previous_active_count()
        &&& f.spec_stagnation_counter() == u.0
    }
    &&& active != 0 && !u.1 ==> {
        &&& f.spec_entities() == e
        &&& f.spec_phase() == Phase::Idle
        &&& f.spec_previous_active_count() == active
        &&& f.spec_stagnation_counter() == u.0
    }
}

impl Simulation {
    /// The spatial order of the last tick, with its copies.
    pub closed spec fn spec_sorted(&self) -> SortedAgents {
        self.sorted
    }

    /// Stagnation detection & reset.
    fn check_stagnation(&mut self)
        requires
            old(self).wf(),
            old(self).stagnation_counter < old(self).current_tick,
        ensures
            final(self).wf(),
            spec_stagnation_check(*old(self), *final(self)),
    {
        let active = self.entities.active_count;
        if active == 0 {
            self.entities.reset();
            self.phase = Phase::Populating {
                remaining: self.config.initial_population,
                restore: None,
                pending: None,
            };
            return ;
        }
        let (counter, reseed) = stagnation_update(
            active,
            self.previous_active_count,
            self.stagnation_counter,
            self.config.stagnation_threshold,
            self.config.stagnation_check_ticks,
        );
        self.stagnation_counter = counter;
        if reseed {
            self.entities.reset();
            self.phase = Phase::Populating {
                remaining: self.config.initial_population,
                restore: Some(active),
                pending: None,
            };
        } else {
            self.previous_active_count = active;
            self.phase = Phase::Idle;
        }
    }
}

/// One step of the seeding from `o` (seeding, no founder pending) to `f`:
/// the next founder is drawn and its genes requested, or, with no founder
/// left, the population count (or the count to restore) is recorded and the
/// simulation goes idle.
pub open spec fn spec_seeding(o: Simulation, f: Simulation, req: Request) -> bool {
    let c = o.spec_config();
    let s0 = o.spec_prng();
    let founder = spec_founder(s0, c.grid_size);
    &&& f.spec_config() == c
    &&& f.spec_tick() == o.spec_tick()
    &&& f.spec_entities() == o.spec_entities()
    &&& f.spec_sorted() == o.spec_sorted()
    &&& f.spec_stagnation_counter() == o.spec_stagnation_counter()
    &&& o.spec_phase() matches Phase::Populating { remaining, restore, pending: None }
    &&& remaining > 0 ==> {
        &&& req == founder.2
        &&& f.spec_phase() == (Phase::Populating {
            remaining: (remaining - 1) as usize,
            restore,
            pending: Some((founder.0, founder.1)),
        })
        &&& f.spec_prng() == spec_state_after(s0, 5)
        &&& f.spec_previous_active_count() == o.spec_previous_active_count()
    }
    &&& remaining == 0 ==> {
        &&& req == Request::Done
        &&& f.spec_phase() == Phase::Idle
        &&& f.spec_prng() == s0
        &&& f.spec_previous_active_count() == match restore {
            Some(a) => a,
            None => o.spec_entities().active_count,
        }
    }
}

/// The collision phase from position `pos` of the spatial order, from `o`
/// to `f`: at the next pair of agents sharing a cell, the saturation and
/// lightness draws are made and the first candidate birth spot is
/// requested; past the last pair, the stagnation check runs, and a
/// re-seeding it starts makes its first step.
pub open spec fn spec_scan(o: Simulation, pos: int, f: Simulation, req: Request) -> bool {
    let c = o.spec_config();
    let s0 = o.spec_prng();
    match spec_next_pair(o.spec_sorted_cells(), pos) {
        Some(p) => {
            &&& f.spec_config() == c
            &&& f.spec_tick() == o.spec_tick()
            &&& f.spec_entities() == o.spec_entities()
            &&& f.spec_sorted() == o.spec_sorted()
            &&& f.spec_previous_active_count() == o.spec_previous_active_count()
            &&& f.spec_stagnation_counter() == o.spec_stagnation_counter()
            &&& f.spec_prng() == spec_state_after(s0, 3)
            &&& f.spec_phase() == (Phase::Searching {
                pos: p as usize,
                saturation_draw: spec_unit_numerator(spec_nth_u64(s0, 0)),
                lightness_draw: spec_unit_numerator(spec_nth_u64(s0, 1)),
                attempts: 0,
            })
            &&& req == (Request::SpotOffset {
                angle_draw: spec_unit_numerator(spec_nth_u64(s0, 2)),
                radius: c.reproduction_radius as i32,
            })
        },
        None => exists|m: Simulation|
            #[trigger] spec_stagnation_check(o, m) && if m.spec_phase() is Idle {
                f == m && req == Request::Done
            } else {
                spec_seeding(m, f, req)
            },
    }
}

/// `m` is `o` with a live agent of the given genes, born now, placed at `(x, y)`.
pub open spec fn spec_birth(o: Simulation, m: Simulation, x: i32, y: i32, genes: Genes) -> bool {
    &&& o.spec_entities().spec_adds(
        m.spec_entities(),
        x,
        y,
        genes.hue,
        genes.saturation,
        genes.lightness,
        o.spec_tick(),
    )
    &&& m.spec_config() == o.spec_config()
    &&& m.spec_tick() == o.spec_tick()
    &&& m.spec_prng() == o.spec_prng()
    &&& m.spec_sorted() == o.spec_sorted()
    &&& m.spec_previous_active_count() == o.spec_previous_active_count()
    &&& m.spec_stagnation_counter() == o.spec_stagnation_counter()
}

/// What [`Simulation::step`] does with `reply` in state `o`, ending in state
/// `f` with request `req`.
pub open spec fn spec_step(o: Simulation, reply: Reply, f: Simulation, req: Request) -> bool {
    let c = o.spec_config();
    let s0 = o.spec_prng();
    match o.spec_phase() {
        Phase::Idle => f == o && req == Request::Done,
        Phase::Populating { remaining, restore, pending } => match pending {
            None => spec_seeding(o, f, req),
            Some((x, y)) => reply matches Reply::Genes(genes) && exists|m: Simulation|
                #[trigger] spec_birth(o, m, x, y, genes) && m.spec_phase() == (Phase::Populating {
                    remaining,
                    restore,
                    pending: None,
                }) && spec_seeding(m, f, req),
        },
        Phase::Scanning { pos } => spec_scan(o, pos as int, f, req),
        Phase::Searching { pos, saturation_draw, lightness_draw, attempts } => reply matches Reply::Offset {
            dx,
            dy,
        } && match o.spec_spot(pos as int, dx, dy) {
            Some((x, y)) => {
                &&& f.spec_config() == c
                &&& f.spec_tick() == o.spec_tick()
                &&& f.spec_entities() == o.spec_entities()
                &&& f.spec_sorted() == o.spec_sorted()
                &&& f.spec_previous_active_count() == o.spec_previous_active_count()
                &&& f.spec_stagnation_counter() == o.spec_stagnation_counter()
                &&& f.spec_prng() == s0
                &&& f.spec_phase() == (Phase::Placing { pos, saturation_draw, lightness_draw, x, y })
                &&& req == (Request::BlendGenes {
                    first: o.spec_sorted_genes(pos as int),
                    second: o.spec_sorted_genes(pos + 1),
                    saturation_draw,
                    lightness_draw,
                })
            },
            None => if attempts + 1 < SPOT_ATTEMPTS {
                &&& f.spec_config() == c
                &&& f.spec_tick() == o.spec_tick()
                &&& f.spec_entities() == o.spec_entities()
                &&& f.spec_sorted() == o.spec_sorted()
                &&& f.spec_previous_active_count() == o.spec_previous_active_count()
                &&& f.spec_stagnation_counter() == o.spec_stagnation_counter()
                &&& f.spec_prng() == spec_advance(s0)
                &&& f.spec_phase() == (Phase::Searching {
                    pos,
                    saturation_draw,
                    lightness_draw,
                    attempts: (attempts + 1) as u32,
                })
                &&& req == (Request::SpotOffset {
                    angle_draw: spec_unit_numerator(spec_output(s0)),
                    radius: c.reproduction_radius as i32,
                })
            } else {
                spec_scan(o, pos + 2, f, req)
            },
        },
        Phase::Placing { pos, saturation_draw, lightness_draw, x, y } => reply matches Reply::Genes(
            genes,
        ) && exists|m: Simulation| #[trigger] spec_birth(o, m, x, y, genes) && spec_scan(m, pos + 2, f, req),
    }
}

/// A birth keeps the copies of the spatial order in step with the store:
/// it fills a slot that holds no live agent.
proof fn lemma_birth_keeps_mirror(
    s: SortedAgents,
    e0: Entities,
    e1: Entities,
    idx: int,
    x: i32,
    y: i32,
    genes: Genes,
    tick: u32,
)
    requires
        e0.wf(),
        s.mirrors(&e0),
        e0.is_first_free_slot(idx),
        e0.spec_adds(e1, x, y, genes.hue, genes.saturation, genes.lightness, tick),
    ensures
        s.mirrors(&e1),
{
    assert forall|k: int| #![trigger s.indices@[k]] 0 <= k < s.len() implies {
        let i = s.indices@[k] as int;
        &&& i < e1.slots()
        &&& e1.is_alive@[i]
        &&& e1.target_x@[i] == s.x@[k]
        &&& e1.target_y@[i] == s.y@[k]
        &&& e1.hue@[i] == s.hue@[k]
        &&& e1.saturation@[i] == s.saturation@[k]
        &&& e1.lightness@[i] == s.lightness@[k]
        &&& e1.birth_tick@[i] == s.birth@[k]
        &&& e1.pos_x@[i] == s.pos_x@[k]
        &&& e1.pos_y@[i] == s.pos_y@[k]
    } by {
        let i = s.indices@[k] as int;
        assert(e0.is_alive@[i]);
        assert(i != idx);
    }
}

impl Simulation {
    /// A birth at `(x, y)` on the grid, now, keeps the invariant.
    proof fn lemma_birth_keeps_wf(o: Simulation, m: Simulation, idx: int, x: i32, y: i32, genes: Genes)
        requires
            o.wf(),
            o.entities.is_first_free_slot(idx),
            spec_birth(o, m, x, y, genes),
            0 <= x < o.config.grid_size,
            0 <= y < o.config.grid_size,
            m.phase == match o.phase {
                Phase::Populating { remaining, restore, pending } => Phase::Populating {
                    remaining,
                    restore,
                    pending: None,
                },
                _ => o.phase,
            },
            o.phase is Populating ==> o.phase->pending is Some,
        ensures
            m.wf(),
    {
        let e0 = o.entities;
        let e1 = m.entities;
        assert forall|i: int| #![trigger e1.is_alive@[i]] 0 <= i < e1.slots() && e1.is_alive@[i] implies {
            &&& 0 <= e1.pos_x@[i] < m.config.grid_size
            &&& 0 <= e1.pos_y@[i] < m.config.grid_size
            &&& 0 <= e1.target_x@[i] < m.config.grid_size
            &&& 0 <= e1.target_y@[i] < m.config.grid_size
            &&& e1.birth_tick@[i] <= m.current_tick
        } by {
            if i != idx {
                assert(e0.is_alive@[i]);
            }
        }
        match o.phase {
            Phase::Scanning { .. } | Phase::Searching { .. } | Phase::Placing { .. } => {
                lemma_birth_keeps_mirror(o.sorted, e0, e1, idx, x, y, genes, o.current_tick);
            },
            _ => {},
        }
    }

    /// The collision phase from position `pos`.
    fn scan(&mut self, pos: usize) -> (req: Request)
        requires
            old(self).wf(),
            old(self).stagnation_counter < old(self).current_tick,
            old(self).sorted.mirrors(&old(self).entities),
            pos <= old(self).sorted.len(),
        ensures
            final(self).wf(),
            spec_scan(*old(self), pos as int, *final(self), req),
            (req is Done) == (final(self).phase is Idle),
    {
        let ghost o = *self;
        match self.find_pair(pos) {
            Some(p) => {
                let ghost s0 = self.prng@;
                let saturation_draw = self.prng.next_unit_numerator();
                proof {
                    lemma_state_after_succ(s0, 0);
                }
                let lightness_draw = self.prng.next_unit_numerator();
                proof {
                    lemma_state_after_succ(s0, 1);
                }
                let angle_draw = self.prng.next_unit_numerator();
                proof {
                    lemma_state_after_succ(s0, 2);
                }
                self.phase = Phase::Searching { pos: p, saturation_draw, lightness_draw, attempts: 0 };
                Request::SpotOffset { angle_draw, radius: self.config.reproduction_radius as i32 }
            },
            None => {
                self.check_stagnation();
                let ghost m = *self;
                if self.is_idle() {
                    assert(spec_stagnation_check(o, m));
                    Request::Done
                } else {
                    let r = self.populate_next();
                    assert(spec_stagnation_check(o, m));
                    r
                }
            },
        }
    }

    /// Hands the simulation the driver's answer to its last request, and
    /// runs the simulation until it needs more work on real numbers (the
    /// request returned) or is idle (`Request::Done`).
    pub fn step(&mut self, reply: Reply) -> (req: Request)
        requires
            old(self).wf(),
            old(self).spec_accepts(reply),
        ensures
            final(self).wf(),
            spec_step(*old(self), reply, *final(self), req),
            (req is Done) == (final(self).spec_phase() is Idle),
    {
        let ghost o = *self;
        match self.phase {
            Phase::Idle => Request::Done,
            Phase::Populating { remaining, restore, pending } => {
                match pending {
                    None => self.populate_next(),
                    Some((x, y)) => {
                        match reply {
                            Reply::Genes(genes) => {
                                let slot = self.entities.add_agent(
                                    x,
                                    y,
                                    genes.hue,
                                    genes.saturation,
                                    genes.lightness,
                                    self.current_tick,
                                );
                                self.phase = Phase::Populating { remaining, restore, pending: None };
                                proof {
                                    Self::lemma_birth_keeps_wf(o, *self, slot->0 as int, x, y, genes);
                                }
                                let ghost m = *self;
                                let r = self.populate_next();
                                assert(spec_birth(o, m, x, y, genes));
                                r
                            },
                            _ => Request::Done,
                        }
                    },
                }
            },
            Phase::Scanning { pos } => self.scan(pos),
            Phase::Searching { pos, saturation_draw, lightness_draw, attempts } => {
                let n = self.sorted.indices.len();
                assert(pos + 1 < n);
                match reply {
                    Reply::Offset { dx, dy } => {
                        match self.birth_spot(pos, dx, dy) {
                            Some((x, y)) => {
                                let first = self.sorted_genes(pos);
                                let second = self.sorted_genes(pos + 1);
                                self.phase = Phase::Placing { pos, saturation_draw, lightness_draw, x, y };
                                Request::BlendGenes { first, second, saturation_draw, lightness_draw }
                            },
                            None => {
                                if attempts + 1 < SPOT_ATTEMPTS {
                                    self.phase = Phase::Searching {
                                        pos,
                                        saturation_draw,
                                        lightness_draw,
                                        attempts: attempts + 1,
                                    };
                                    let angle_draw = self.prng.next_unit_numerator();
                                    Request::SpotOffset {
                                        angle_draw,
                                        radius: self.config.reproduction_radius as i32,
                                    }
                                } else {
                                    self.scan(pos + 2)
                                }
                            },
                        }
                    },
                    _ => Request::Done,
                }
            },
            Phase::Placing { pos, saturation_draw, lightness_draw, x, y } => {
                let n = self.sorted.indices.len();
                assert(pos + 1 < n);
                match reply {
                    Reply::Genes(genes) => {
                        let slot = self.entities.add_agent(
                            x,
                            y,
                            genes.hue,
                            genes.saturation,
                            genes.lightness,
                            self.current_tick,
                        );
                        proof {
                            Self::lemma_birth_keeps_wf(o, *self, slot->0 as int, x, y, genes);
                        }
                        let ghost m = *self;
                        let r = self.scan(pos + 2);
                        assert(spec_birth(o, m, x, y, genes));
                        r
                    },
                    _ => Request::Done,
                }
            },
        }
    }

    /// A logic tick: [`Simulation::begin_tick`], then the collision phase
    /// from the start of the spatial order, as [`Simulation::step`] runs it.
    pub fn tick(&mut self) -> (req: Request)
        requires
            old(self).wf(),
            old(self).spec_phase() is Idle,
            old(self).spec_tick() < u32::MAX,
        ensures
            final(self).wf(),
            final(self).spec_tick() == old(self).spec_tick() + 1,
            (req is Done) == (final(self).spec_phase() is Idle),
            exists|m: Simulation|
                #[trigger] spec_tick_start(*old(self), m) && spec_scan(m, 0, *final(self), req),
    {
        self.begin_tick();
        let ghost m = *self;
        let r = self.scan(0);
        assert(spec_tick_start(*old(self), m));
        r
    }
}

impl Simulation {
    /// What the simulation keeps between any two calls: a valid
    /// configuration; one live count per live agent; every live agent on the
    /// grid and born no later than the current tick; a stagnation counter
    /// within the check period and no larger than the number of ticks run;
    /// while seeding, the agents placed, the founders still to draw and the
    /// founder pending make up the initial population.
    pub proof fn lemma_invariant(&self)
        requires
            self.wf(),
        ensures
            self.spec_config().valid(),
            self.spec_entities().wf(),
            self.spec_entities().active_count == count_alive(self.spec_entities().is_alive@),
            self.spec_stagnation_counter() <= self.spec_config().stagnation_check_ticks,
            self.spec_stagnation_counter() <= self.spec_tick(),
            forall|i: int|
                #![trigger self.spec_entities().is_alive@[i]]
                0 <= i < self.spec_entities().slots() && self.spec_entities().is_alive@[i] ==> {
                    let e = self.spec_entities();
                    let g = self.spec_config().grid_size;
                    &&& 0 <= e.pos_x@[i] < g
                    &&& 0 <= e.pos_y@[i] < g
                    &&& 0 <= e.target_x@[i] < g
                    &&& 0 <= e.target_y@[i] < g
                    &&& e.birth_tick@[i] <= self.spec_tick()
                },
            self.spec_phase() matches Phase::Populating { remaining, pending, .. }
                ==> self.spec_entities().active_count + remaining + (if pending is Some {
                1int
            } else {
                0int
            }) == self.spec_config().initial_population,
    {
    }

    /// A simulation that is idle, having finished its seeding or a tick,
    /// holds at least one live agent whenever its configuration seeds any:
    /// a population that died out during a tick is re-seeded within it.
    pub proof fn lemma_idle_simulation_has_agents(&self)
        requires
            self.wf(),
            self.spec_phase() is Idle,
            self.spec_config().initial_population >= 1,
        ensures
            self.spec_entities().active_count >= 1,
    {
    }
}

/// After ageing no live agent is older than its lifespan, and ageing only
/// removes agents.
pub proof fn lemma_no_agent_outlives_lifespan(o: Simulation, f: Simulation)
    requires
        spec_tick_start(o, f),
    ensures
        forall|i: int|
            #![trigger f.spec_entities().is_alive@[i]]
            0 <= i < f.spec_entities().slots() && f.spec_entities().is_alive@[i] ==> f.spec_tick()
                - f.spec_entities().birth_tick@[i] <= f.spec_config().lifespan_ticks && o.spec_entities().is_alive@[i],
        f.spec_entities().slots() == o.spec_entities().slots(),
{
}

/// Ageing kills exactly the agents older than their lifespan: an agent
/// alive before the tick whose age at the new tick is at most
/// `lifespan_ticks` is still alive after it, and one whose age exceeds it
/// is dead.
pub proof fn lemma_ageing_spares_agents_within_lifespan(o: Simulation, f: Simulation)
    requires
        spec_tick_start(o, f),
    ensures
        forall|i: int|
            #![trigger o.spec_entities().is_alive@[i]]
            0 <= i < o.spec_entities().slots() && o.spec_entities().is_alive@[i] ==> (
            f.spec_entities().is_alive@[i] <==> f.spec_tick() - o.spec_entities().birth_tick@[i]
                <= o.spec_config().lifespan_ticks),
        forall|i: int|
            #![trigger f.spec_entities().is_alive@[i]]
            0 <= i < f.spec_entities().slots() && f.spec_entities().is_alive@[i]
                ==> o.spec_entities().is_alive@[i],
{
}

/// A random walk: every live agent moves from the cell the last tick left
/// it in (its last target, now its position) to one of the eight
/// neighbours of that cell on the torus.
pub proof fn lemma_moves_are_moore_steps(o: Simulation, f: Simulation)
    requires
        spec_tick_start(o, f),
    ensures
        forall|i: int|
            #![trigger f.spec_entities().is_alive@[i]]
            0 <= i < f.spec_entities().slots() && f.spec_entities().is_alive@[i] ==> f.spec_entities().pos_x@[i]
                == o.spec_entities().target_x@[i] && f.spec_entities().pos_y@[i]
                == o.spec_entities().target_y@[i],
        forall|i: int|
            #![trigger f.spec_entities().is_alive@[i]]
            0 <= i < f.spec_entities().slots() && f.spec_entities().is_alive@[i] ==> exists|d: u32|
                #![trigger spec_move_delta(d)]
                d < 8 && {
                    let e = f.spec_entities();
                    let g = f.spec_config().grid_size as int;
                    &&& e.target_x@[i] == spec_moved(e.pos_x@[i], spec_move_delta(d).0, g)
                    &&& e.target_y@[i] == spec_moved(e.pos_y@[i], spec_move_delta(d).1, g)
                },
{
    let e = f.spec_entities();
    let alive = e.is_alive@;
    assert forall|i: int|
        #![trigger f.spec_entities().is_alive@[i]]
        0 <= i < e.slots() && e.is_alive@[i] implies exists|d: u32|
            #![trigger spec_move_delta(d)]
            d < 8 && {
                let g = f.spec_config().grid_size as int;
                &&& e.target_x@[i] == spec_moved(e.pos_x@[i], spec_move_delta(d).0, g)
                &&& e.target_y@[i] == spec_moved(e.pos_y@[i], spec_move_delta(d).1, g)
            } by {
        let d = spec_direction(o.spec_prng(), spec_rank(alive, i));
        assert(e.target_x@[i] == spec_moved(e.pos_x@[i], spec_move_delta(d).0, f.spec_config().grid_size as int));
        assert(e.target_y@[i] == spec_moved(e.pos_y@[i], spec_move_delta(d).1, f.spec_config().grid_size as int));
    }
}

/// Offspring are only ever placed on a cell no agent of the spatial order
/// occupies: when the simulation asks for an offspring's genes, the spot it
/// holds is free.
pub proof fn lemma_birth_spots_are_free(o: Simulation, reply: Reply, f: Simulation, req: Request)
    requires
        o.wf(),
        spec_step(o, reply, f, req),
        req is BlendGenes,
    ensures
        f.spec_phase() matches Phase::Placing { x, y, .. } && !spec_occupied(
            o.spec_sorted(),
            o.spec_config().grid_size as int,
            spec_cell(x as int, y as int, o.spec_config().grid_size as int),
        ),
{
    assert(!(o.spec_phase() is Populating));
    assert(!(o.spec_phase() is Scanning));
    assert(!(o.spec_phase() is Placing));
    match o.spec_phase() {
        Phase::Searching { pos, .. } => {
            if let Reply::Offset { dx, dy } = reply {
                o.lemma_sorted_cell_range(pos as int);
                let g = o.spec_config().grid_size as int;
                let s = o.spec_sorted();
                let nx = spec_wrap(s.x@[pos as int] + dx, g);
                let ny = spec_wrap(s.y@[pos as int] + dy, g);
                assert(0 <= nx < g && 0 <= ny < g);
            }
        },
        _ => {},
    }
}

/// Two stores hold the same agents with the same data.
pub open spec fn spec_same_entities(a: Entities, b: Entities) -> bool {
    &&& a.pos_x@ == b.pos_x@
    &&& a.pos_y@ == b.pos_y@
    &&& a.target_x@ == b.target_x@
    &&& a.target_y@ == b.target_y@
    &&& a.hue@ == b.hue@
    &&& a.saturation@ == b.saturation@
    &&& a.lightness@ == b.lightness@
    &&& a.birth_tick@ == b.birth_tick@
    &&& a.is_alive@ == b.is_alive@
    &&& a.active_count == b.active_count
}

/// Two spatial orders list the same agents with the same copies.
pub open spec fn spec_same_sorted(a: SortedAgents, b: SortedAgents) -> bool {
    &&& a.indices@ == b.indices@
    &&& a.x@ == b.x@
    &&& a.y@ == b.y@
    &&& a.hue@ == b.hue@
    &&& a.saturation@ == b.saturation@
    &&& a.lightness@ == b.lightness@
    &&& a.birth@ == b.birth@
    &&& a.pos_x@ == b.pos_x@
    &&& a.pos_y@ == b.pos_y@
}

/// Two simulations hold the same data, whatever their phases.
pub open spec fn spec_same_data(a: Simulation, b: Simulation) -> bool {
    &&& a.spec_config() == b.spec_config()
    &&& a.spec_tick() == b.spec_tick()
    &&& a.spec_prng() == b.spec_prng()
    &&& a.spec_previous_active_count() == b.spec_previous_active_count()
    &&& a.spec_stagnation_counter() == b.spec_stagnation_counter()
    &&& spec_same_entities(a.spec_entities(), b.spec_entities())
    &&& spec_same_sorted(a.spec_sorted(), b.spec_sorted())
}

/// Two simulations are in the same state.
pub open spec fn spec_same_state(a: Simulation, b: Simulation) -> bool {
    &&& spec_same_data(a, b)
    &&& a.spec_phase() == b.spec_phase()
}

proof fn lemma_seeding_deterministic(
    o1: Simulation,
    o2: Simulation,
    f1: Simulation,
    f2: Simulation,
    q1: Request,
    q2: Request,
)
    requires
        spec_same_state(o1, o2),
        spec_seeding(o1, f1, q1),
        spec_seeding(o2, f2, q2),
    ensures
        q1 == q2,
        spec_same_state(f1, f2),
{
}

proof fn lemma_stagnation_deterministic(o1: Simulation, o2: Simulation, m1: Simulation, m2: Simulation)
    requires
        spec_same_data(o1, o2),
        spec_stagnation_check(o1, m1),
        spec_stagnation_check(o2, m2),
    ensures
        spec_same_state(m1, m2),
{
}

proof fn lemma_scan_deterministic(
    o1: Simulation,
    o2: Simulation,
    pos: int,
    f1: Simulation,
    f2: Simulation,
    q1: Request,
    q2: Request,
)
    requires
        spec_same_data(o1, o2),
        spec_scan(o1, pos, f1, q1),
        spec_scan(o2, pos, f2, q2),
    ensures
        q1 == q2,
        spec_same_state(f1, f2),
{
    assert(o1.spec_sorted_cells() =~= o2.spec_sorted_cells());
    if spec_next_pair(o1.spec_sorted_cells(), pos) is None {
        let m1 = choose|m: Simulation|
            #[trigger] spec_stagnation_check(o1, m) && if m.spec_phase() is Idle {
                f1 == m && q1 == Request::Done
            } else {
                spec_seeding(m, f1, q1)
            };
        let m2 = choose|m: Simulation|
            #[trigger] spec_stagnation_check(o2, m) && if m.spec_phase() is Idle {
                f2 == m && q2 == Request::Done
            } else {
                spec_seeding(m, f2, q2)
            };
        lemma_stagnation_deterministic(o1, o2, m1, m2);
        if !(m1.spec_phase() is Idle) {
            lemma_seeding_deterministic(m1, m2, f1, f2, q1, q2);
        }
    }
}

proof fn lemma_birth_deterministic(
    o1: Simulation,
    o2: Simulation,
    m1: Simulation,
    m2: Simulation,
    x: i32,
    y: i32,
    genes: Genes,
)
    requires
        spec_same_data(o1, o2),
        spec_birth(o1, m1, x, y, genes),
        spec_birth(o2, m2, x, y, genes),
    ensures
        spec_same_data(m1, m2),
{
    let e1 = o1.spec_entities();
    let e2 = o2.spec_entities();
    let idx = e1.lemma_first_free_slot_exists();
    assert(e2.is_first_free_slot(idx));
}

/// Reproducibility: a step from the same state with the same reply makes
/// the same request and reaches the same state.
pub proof fn lemma_step_deterministic(
    o1: Simulation,
    o2: Simulation,
    reply: Reply,
    f1: Simulation,
    f2: Simulation,
    q1: Request,
    q2: Request,
)
    requires
        spec_same_state(o1, o2),
        spec_step(o1, reply, f1, q1),
        spec_step(o2, reply, f2, q2),
    ensures
        q1 == q2,
        spec_same_state(f1, f2),
{
    match o1.spec_phase() {
        Phase::Idle => {},
        Phase::Populating { remaining, restore, pending } => {
            match pending {
                None => {
                    lemma_seeding_deterministic(o1, o2, f1, f2, q1, q2);
                },
                Some((x, y)) => {
                    let genes = reply->Genes_0;
                    let m1 = choose|m: Simulation|
                        #[trigger] spec_birth(o1, m, x, y, genes) && m.spec_phase() == (
                        Phase::Populating { remaining, restore, pending: None }) && spec_seeding(
                            m,
                            f1,
                            q1,
                        );
                    let m2 = choose|m: Simulation|
                        #[trigger] spec_birth(o2, m, x, y, genes) && m.spec_phase() == (
                        Phase::Populating { remaining, restore, pending: None }) && spec_seeding(
                            m,
                            f2,
                            q2,
                        );
                    lemma_birth_deterministic(o1, o2, m1, m2, x, y, genes);
                    lemma_seeding_deterministic(m1, m2, f1, f2, q1, q2);
                },
            }
        },
        Phase::Scanning { pos } => {
            lemma_scan_deterministic(o1, o2, pos as int, f1, f2, q1, q2);
        },
        Phase::Searching { pos, saturation_draw, lightness_draw, attempts } => {
            let g = o1.spec_config().grid_size as int;
            let s1 = o1.spec_sorted();
            let s2 = o2.spec_sorted();
            assert forall|cell: int| spec_occupied(s1, g, cell) == spec_occupied(s2, g, cell) by {
                if spec_occupied(s1, g, cell) {
                    let k = choose|k: int| 0 <= k < s1.len() && s1.cell(k, g) == cell;
                    assert(s2.cell(k, g) == cell);
                }
                if spec_occupied(s2, g, cell) {
                    let k = choose|k: int| 0 <= k < s2.len() && s2.cell(k, g) == cell;
                    assert(s1.cell(k, g) == cell);
                }
            }
            assert(o1.spec_spot(pos as int, reply->dx, reply->dy) == o2.spec_spot(
                pos as int,
                reply->dx,
                reply->dy,
            ));
            if o1.spec_spot(pos as int, reply->dx, reply->dy) is None && attempts + 1
                >= SPOT_ATTEMPTS {
                lemma_scan_deterministic(o1, o2, pos + 2, f1, f2, q1, q2);
            }
        },
        Phase::Placing { pos, saturation_draw, lightness_draw, x, y } => {
            let genes = reply->Genes_0;
            let m1 = choose|m: Simulation|
                #[trigger] spec_birth(o1, m, x, y, genes) && spec_scan(m, pos + 2, f1, q1);
            let m2 = choose|m: Simulation|
                #[trigger] spec_birth(o2, m, x, y, genes) && spec_scan(m, pos + 2, f2, q2);
            lemma_birth_deterministic(o1, o2, m1, m2, x, y, genes);
            lemma_scan_deterministic(m1, m2, pos + 2, f1, f2, q1, q2);
        },
    }
}

proof fn lemma_tick_start_deterministic(o1: Simulation, o2: Simulation, m1: Simulation, m2: Simulation)
    requires
        spec_same_data(o1, o2),
        spec_tick_start(o1, m1),
        spec_tick_start(o2, m2),
    ensures
        spec_same_state(m1, m2),
{
    let e1 = m1.spec_entities();
    let e2 = m2.spec_entities();
    let n = o1.spec_entities().slots();
    let lifespan = o1.spec_config().lifespan_ticks;
    assert(spec_aged(o1.spec_entities(), m1.spec_tick(), lifespan) =~= spec_aged(
        o2.spec_entities(),
        m2.spec_tick(),
        lifespan,
    ));
    assert(e1.is_alive@ == e2.is_alive@);
    assert forall|i: int| 0 <= i < n implies e1.target_x@[i] == e2.target_x@[i] && e1.target_y@[i]
        == e2.target_y@[i] && e1.pos_x@[i] == e2.pos_x@[i] && e1.pos_y@[i] == e2.pos_y@[i] by {}
    assert(e1.target_x@ =~= e2.target_x@);
    assert(e1.target_y@ =~= e2.target_y@);
    assert(e1.pos_x@ =~= e2.pos_x@);
    assert(e1.pos_y@ =~= e2.pos_y@);
    let g = o1.spec_config().grid_size as int;
    lemma_spatial_order_unique(
        m1.spec_sorted_indices(),
        m2.spec_sorted_indices(),
        e1.is_alive@,
        e1.target_x@,
        e1.target_y@,
        g,
    );
    let s1 = m1.spec_sorted();
    let s2 = m2.spec_sorted();
    assert forall|k: int| 0 <= k < s1.len() implies s1.x@[k] == s2.x@[k] && s1.y@[k] == s2.y@[k]
        && s1.hue@[k] == s2.hue@[k] && s1.saturation@[k] == s2.saturation@[k] && s1.lightness@[k]
        == s2.lightness@[k] && s1.birth@[k] == s2.birth@[k] && s1.pos_x@[k] == s2.pos_x@[k]
        && s1.pos_y@[k] == s2.pos_y@[k] by {
        assert(s1.indices@[k] == s2.indices@[k]);
    }
    assert(s1.x@ =~= s2.x@);
    assert(s1.y@ =~= s2.y@);
    assert(s1.hue@ =~= s2.hue@);
    assert(s1.saturation@ =~= s2.saturation@);
    assert(s1.lightness@ =~= s2.lightness@);
    assert(s1.birth@ =~= s2.birth@);
    assert(s1.pos_x@ =~= s2.pos_x@);
    assert(s1.pos_y@ =~= s2.pos_y@);
}

/// Reproducibility: a tick from the same state makes the same first request
/// and reaches the same state.
pub proof fn lemma_tick_deterministic(
    o1: Simulation,
    o2: Simulation,
    f1: Simulation,
    f2: Simulation,
    q1: Request,
    q2: Request,
)
    requires
        spec_same_state(o1, o2),
        exists|m: Simulation| #[trigger] spec_tick_start(o1, m) && spec_scan(m, 0, f1, q1),
        exists|m: Simulation| #[trigger] spec_tick_start(o2, m) && spec_scan(m, 0, f2, q2),
    ensures
        q1 == q2,
        spec_same_state(f1, f2),
{
    let m1 = choose|m: Simulation| #[trigger] spec_tick_start(o1, m) && spec_scan(m, 0, f1, q1);
    let m2 = choose|m: Simulation| #[trigger] spec_tick_start(o2, m) && spec_scan(m, 0, f2, q2);
    lemma_tick_start_deterministic(o1, o2, m1, m2);
    lemma_scan_deterministic(m1, m2, 0, f1, f2, q1, q2);
}

/// Reproducibility from the start: simulations created from the same
/// configuration are in the same state.
pub proof fn lemma_new_deterministic(s1: Simulation, s2: Simulation, config: Config)
    requires
        spec_fresh(s1, config),
        spec_fresh(s2, config),
    ensures
        spec_same_state(s1, s2),
{
}

/// None of the stagnation checks from `os[0]` to `os[j - 1]` calls for a
/// re-seed.
spec fn spec_no_reseed_before(os: Seq<Simulation>, j: int) -> bool {
    let c = os[0].spec_config();
    forall|i: int|
        #![trigger os[i]]
        0 <= i < j ==> !spec_stagnation_update(
            os[i].spec_entities().active_count,
            os[i].spec_previous_active_count(),
            os[i].spec_stagnation_counter(),
            c.stagnation_threshold,
            c.stagnation_check_ticks,
        ).1
}

/// Along a run of stagnant checks with no re-seed, the counter has grown
/// by one per check.
proof fn lemma_stagnant_counter_grows(os: Seq<Simulation>, fs: Seq<Simulation>, j: int)
    requires
        0 <= j < os.len(),
        os.len() == fs.len(),
        spec_no_reseed_before(os, j),
        forall|i: int|
            #![trigger os[i]]
            0 <= i < os.len() ==> {
                let c = os[0].spec_config();
                &&& os[i].spec_config() == c
                &&& spec_stagnation_check(os[i], fs[i])
                &&& os[i].spec_entities().active_count != 0
                &&& spec_population_change(
                    os[i].spec_entities().active_count,
                    os[i].spec_previous_active_count(),
                ) <= c.stagnation_threshold
            },
        forall|i: int|
            #![trigger os[i + 1]]
            0 <= i < os.len() - 1 ==> os[i + 1].spec_stagnation_counter()
                == fs[i].spec_stagnation_counter(),
    ensures
        os[j].spec_stagnation_counter() >= j,
    decreases j,
{
    if j > 0 {
        assert(spec_no_reseed_before(os, j - 1));
        lemma_stagnant_counter_grows(os, fs, j - 1);
        let i = j - 1;
        assert(os[i].spec_config() == os[0].spec_config());
        assert(os[i + 1].spec_stagnation_counter() == fs[i].spec_stagnation_counter());
    }
}

/// Auto-reset of a stagnating population: of the stagnation checks of
/// `stagnation_check_ticks + 1` consecutive ticks, each finding a live
/// population that changed by at most the threshold (the counter carried
/// from one check to the next), one re-seeds the population: it kills every
/// agent, restarts the count at zero and starts seeding the initial
/// population afresh (which, once answered, places the whole initial
/// population at that tick: see [`lemma_seeding_fills_population`]).
pub proof fn lemma_stagnation_forces_reseed(os: Seq<Simulation>, fs: Seq<Simulation>)
    requires
        os.len() == os[0].spec_config().stagnation_check_ticks + 1,
        fs.len() == os.len(),
        forall|i: int|
            #![trigger os[i]]
            0 <= i < os.len() ==> {
                let c = os[0].spec_config();
                &&& os[i].spec_config() == c
                &&& spec_stagnation_check(os[i], fs[i])
                &&& os[i].spec_entities().active_count != 0
                &&& spec_population_change(
                    os[i].spec_entities().active_count,
                    os[i].spec_previous_active_count(),
                ) <= c.stagnation_threshold
            },
        forall|i: int|
            #![trigger os[i + 1]]
            0 <= i < os.len() - 1 ==> os[i + 1].spec_stagnation_counter()
                == fs[i].spec_stagnation_counter(),
    ensures
        exists|j: int|
            #![trigger fs[j]]
            0 <= j < fs.len() && {
                let c = os[0].spec_config();
                &&& fs[j].spec_phase() == (Phase::Populating {
                    remaining: c.initial_population,
                    restore: Some(os[j].spec_entities().active_count),
                    pending: None,
                })
                &&& spec_reset(os[j].spec_entities(), fs[j].spec_entities())
                &&& fs[j].spec_stagnation_counter() == 0
            },
{
    let c = os[0].spec_config();
    let k = c.stagnation_check_ticks as int;
    if spec_no_reseed_before(os, k + 1) {
        assert(spec_no_reseed_before(os, k));
        lemma_stagnant_counter_grows(os, fs, k);
        assert(os[k].spec_config() == c);
        assert(false);
    } else {
        let j = choose|j: int|
            #![trigger os[j]]
            0 <= j < k + 1 && spec_stagnation_update(
                os[j].spec_entities().active_count,
                os[j].spec_previous_active_count(),
                os[j].spec_stagnation_counter(),
                c.stagnation_threshold,
                c.stagnation_check_ticks,
            ).1;
        assert(os[j].spec_config() == c);
        assert(fs[j].spec_stagnation_counter() == 0);
    }
}


/// One call on the simulation, from `o` to `f` answering `req`:
/// `Simulation::tick` for `None`, `Simulation::step` with the reply for
/// `Some(reply)`.
pub open spec fn spec_call(o: Simulation, call: Option<Reply>, f: Simulation, req: Request) -> bool {
    match call {
        None => exists|m: Simulation| #[trigger] spec_tick_start(o, m) && spec_scan(m, 0, f, req),
        Some(reply) => spec_step(o, reply, f, req),
    }
}

/// `states` is a run of the calls `calls`: call `i` takes `states[i]` to
/// `states[i + 1]` and answers `reqs[i]`.
pub open spec fn spec_run(states: Seq<Simulation>, calls: Seq<Option<Reply>>, reqs: Seq<Request>) -> bool {
    &&& states.len() == calls.len() + 1
    &&& reqs.len() == calls.len()
    &&& forall|i: int|
        #![trigger calls[i]]
        0 <= i < calls.len() ==> spec_call(states[i], calls[i], states[i + 1], reqs[i])
}

proof fn lemma_run_prefix_deterministic(
    a: Seq<Simulation>,
    b: Seq<Simulation>,
    calls: Seq<Option<Reply>>,
    qa: Seq<Request>,
    qb: Seq<Request>,
    n: int,
)
    requires
        spec_same_state(a[0], b[0]),
        spec_run(a, calls, qa),
        spec_run(b, calls, qb),
        0 <= n <= calls.len(),
    ensures
        spec_same_state(a[n], b[n]),
        forall|i: int| 0 <= i < n ==> qa[i] == qb[i],
    decreases n,
{
    if n > 0 {
        let i = n - 1;
        lemma_run_prefix_deterministic(a, b, calls, qa, qb, i);
        match calls[i] {
            None => lemma_tick_deterministic(a[i], b[i], a[i + 1], b[i + 1], qa[i], qb[i]),
            Some(reply) => lemma_step_deterministic(a[i], b[i], reply, a[i + 1], b[i + 1], qa[i], qb[i]),
        }
    }
}

/// Reproducibility of a whole run: two simulations created from the same
/// configuration and driven by the same calls (ticks, and steps with the
/// same replies) make the same requests and pass through the same states.
pub proof fn lemma_run_deterministic(
    config: Config,
    a: Seq<Simulation>,
    b: Seq<Simulation>,
    calls: Seq<Option<Reply>>,
    qa: Seq<Request>,
    qb: Seq<Request>,
)
    requires
        spec_fresh(a[0], config),
        spec_fresh(b[0], config),
        spec_run(a, calls, qa),
        spec_run(b, calls, qb),
    ensures
        qa == qb,
        forall|i: int| 0 <= i < a.len() ==> spec_same_state(#[trigger] a[i], b[i]),
{
    lemma_new_deterministic(a[0], b[0], config);
    assert forall|i: int| 0 <= i < a.len() implies spec_same_state(#[trigger] a[i], b[i]) by {
        lemma_run_prefix_deterministic(a, b, calls, qa, qb, i);
    }
    lemma_run_prefix_deterministic(a, b, calls, qa, qb, calls.len() as int);
    assert(qa =~= qb);
}


/// Every live agent of `e` was born at tick `t`.
pub open spec fn spec_all_born_at(e: Entities, t: u32) -> bool {
    forall|j: int|
        #![trigger e.is_alive@[j]]
        0 <= j < e.slots() && e.is_alive@[j] ==> e.birth_tick@[j] == t
}

/// What a seeding keeps from state to state: the configuration and the
/// tick; every live agent born at the tick; seeding, or idle with the whole
/// initial population placed.
spec fn spec_seeding_so_far(s: Simulation, c: Config, t: u32) -> bool {
    &&& s.wf()
    &&& s.spec_config() == c
    &&& s.spec_tick() == t
    &&& spec_all_born_at(s.spec_entities(), t)
    &&& (s.spec_phase() is Populating || s.spec_phase() is Idle)
    &&& s.spec_phase() is Idle ==> s.spec_entities().active_count == c.initial_population
}

proof fn lemma_seeding_step(o: Simulation, reply: Reply, f: Simulation, req: Request, c: Config, t: u32)
    requires
        spec_seeding_so_far(o, c, t),
        f.wf(),
        spec_step(o, reply, f, req),
    ensures
        spec_seeding_so_far(f, c, t),
{
    o.lemma_invariant();
    match o.spec_phase() {
        Phase::Populating { remaining, restore, pending } => match pending {
            None => {},
            Some((x, y)) => {
                let genes = reply->Genes_0;
                let m = choose|m: Simulation|
                    #[trigger] spec_birth(o, m, x, y, genes) && m.spec_phase() == (Phase::Populating {
                        remaining,
                        restore,
                        pending: None,
                    }) && spec_seeding(m, f, req);
                let e0 = o.spec_entities();
                let e1 = m.spec_entities();
                let idx = e0.lemma_first_free_slot_exists();
                assert forall|j: int|
                    #![trigger e1.is_alive@[j]]
                    0 <= j < e1.slots() && e1.is_alive@[j] implies e1.birth_tick@[j] == t by {
                    if j != idx {
                        assert(e0.is_alive@[j]);
                    }
                }
            },
        },
        _ => {},
    }
}

/// A seeding, started on a population all born at the current tick (after
/// a re-seed, none is alive), and answered until the simulation is idle
/// again, places the whole initial population: the simulation then holds
/// exactly `initial_population` agents, every one born at the current tick.
pub proof fn lemma_seeding_fills_population(
    s: Seq<Simulation>,
    replies: Seq<Reply>,
    reqs: Seq<Request>,
)
    requires
        s.len() == replies.len() + 1,
        reqs.len() == replies.len(),
        forall|i: int| 0 <= i < s.len() ==> (#[trigger] s[i]).wf(),
        forall|i: int|
            #![trigger replies[i]]
            0 <= i < replies.len() ==> spec_step(s[i], replies[i], s[i + 1], reqs[i]),
        s[0].spec_phase() is Populating,
        spec_all_born_at(s[0].spec_entities(), s[0].spec_tick()),
        s.last().spec_phase() is Idle,
    ensures
        s.last().spec_tick() == s[0].spec_tick(),
        s.last().spec_entities().active_count == s[0].spec_config().initial_population,
        spec_all_born_at(s.last().spec_entities(), s[0].spec_tick()),
{
    let n = replies.len() as int;
    lemma_seeding_prefix(s, replies, reqs, n);
    assert(s.last() == s[n]);
}

proof fn lemma_seeding_prefix(s: Seq<Simulation>, replies: Seq<Reply>, reqs: Seq<Request>, i: int)
    requires
        0 <= i <= replies.len(),
        s.len() == replies.len() + 1,
        reqs.len() == replies.len(),
        forall|k: int| 0 <= k < s.len() ==> (#[trigger] s[k]).wf(),
        forall|k: int|
            #![trigger replies[k]]
            0 <= k < replies.len() ==> spec_step(s[k], replies[k], s[k + 1], reqs[k]),
        s[0].spec_phase() is Populating,
        spec_all_born_at(s[0].spec_entities(), s[0].spec_tick()),
    ensures
        spec_seeding_so_far(s[i], s[0].spec_config(), s[0].spec_tick()),
    decreases i,
{
    if i > 0 {
        let k = i - 1;
        lemma_seeding_prefix(s, replies, reqs, k);
        assert(spec_step(s[k], replies[k], s[k + 1], reqs[k]));
        assert(s[k + 1].wf());
        lemma_seeding_step(s[k], replies[k], s[k + 1], reqs[k], s[0].spec_config(), s[0].spec_tick());
    } else {
        assert(s[0].wf());
    }
}


/// Offspring stay near their parents: a birth spot the search settles on is
/// the first parent's cell moved by an offset within the reproduction
/// radius on each axis, wrapped around the torus.
pub proof fn lemma_birth_spot_within_radius(o: Simulation, reply: Reply, f: Simulation, req: Request)
    requires
        o.wf(),
        o.spec_accepts(reply),
        spec_step(o, reply, f, req),
        o.spec_phase() is Searching,
        f.spec_phase() is Placing,
    ensures
        ({
            let pos = o.spec_phase()->Searching_pos as int;
            let g = o.spec_config().grid_size as int;
            let parent_x = o.spec_sorted().x@[pos];
            let parent_y = o.spec_sorted().y@[pos];
            exists|dx: i32, dy: i32|
                #![trigger spec_offset_within(dx, dy, o.spec_config().reproduction_radius as i32)]
                spec_offset_within(dx, dy, o.spec_config().reproduction_radius as i32)
                    && f.spec_phase()->Placing_x == spec_wrap(parent_x + dx, g)
                    && f.spec_phase()->Placing_y == spec_wrap(parent_y + dy, g)
        }),
{
    let pos = o.spec_phase()->Searching_pos as int;
    let attempts = o.spec_phase()->Searching_attempts;
    let (dx, dy) = (reply->Offset_dx, reply->Offset_dy);
    let g = o.spec_config().grid_size as int;
    assert(spec_offset_within(dx, dy, o.spec_config().reproduction_radius as i32));
    match o.spec_spot(pos, dx, dy) {
        Some((x, y)) => {
            let i = o.spec_sorted().indices@[pos] as int;
            assert(o.spec_entities().is_alive@[i]);
            let nx = spec_wrap(o.spec_sorted().x@[pos] + dx, g);
            let ny = spec_wrap(o.spec_sorted().y@[pos] + dy, g);
            lemma_wrap_on_ring(o.spec_sorted().x@[pos] + dx, g);
            lemma_wrap_on_ring(o.spec_sorted().y@[pos] + dy, g);
            assert(x == nx && y == ny);
        },
        None => {
            if attempts + 1 >= SPOT_ATTEMPTS {
                match spec_next_pair(o.spec_sorted_cells(), pos + 2) {
                    Some(p) => {},
                    None => {
                        let m = choose|m: Simulation|
                            #[trigger] spec_stagnation_check(o, m) && if m.spec_phase() is Idle {
                                f == m && req == Request::Done
                            } else {
                                spec_seeding(m, f, req)
                            };
                        assert(m.spec_phase() is Idle || m.spec_phase() is Populating);
                    },
                }
            }
        },
    }
}


/// The candidate at offset `(dx, dy)` from the first parent at position
/// `pos` of the spatial order of `o` falls on a cell some agent of the
/// order targets.
pub open spec fn spec_candidate_taken(o: Simulation, pos: int, dx: i32, dy: i32) -> bool {
    let s = o.spec_sorted();
    let g = o.spec_config().grid_size as int;
    exists|k: int|
        #![trigger s.cell(k, g)]
        0 <= k < s.len() && s.cell(k, g) == ((s.y@[pos] + dy) % g) * g + (s.x@[pos] + dx) % g
}

/// A rejected candidate is not the end of the search: while fewer than
/// `SPOT_ATTEMPTS` candidates have been rejected, a taken candidate makes
/// the simulation ask for another offset (a fresh draw of the angle), with
/// one more rejection counted, for the same pair and with no birth.
pub proof fn lemma_taken_candidate_asks_again(o: Simulation, reply: Reply, f: Simulation, req: Request)
    requires
        spec_step(o, reply, f, req),
        o.spec_phase() is Searching,
        reply is Offset,
        spec_candidate_taken(o, o.spec_phase()->Searching_pos as int, reply->Offset_dx, reply->Offset_dy),
        o.spec_phase()->Searching_attempts + 1 < SPOT_ATTEMPTS,
    ensures
        f.spec_phase() == (Phase::Searching {
            pos: o.spec_phase()->Searching_pos,
            saturation_draw: o.spec_phase()->Searching_saturation_draw,
            lightness_draw: o.spec_phase()->Searching_lightness_draw,
            attempts: (o.spec_phase()->Searching_attempts + 1) as u32,
        }),
        req == (Request::SpotOffset {
            angle_draw: spec_unit_numerator(spec_output(o.spec_prng())),
            radius: o.spec_config().reproduction_radius as i32,
        }),
        f.spec_prng() == spec_advance(o.spec_prng()),
        f.spec_entities() == o.spec_entities(),
        f.spec_sorted() == o.spec_sorted(),
        f.spec_tick() == o.spec_tick(),
{
    let pos = o.spec_phase()->Searching_pos as int;
    let (dx, dy) = (reply->Offset_dx, reply->Offset_dy);
    let g = o.spec_config().grid_size as int;
    let k = choose|k: int|
        #![trigger o.spec_sorted().cell(k, g)]
        0 <= k < o.spec_sorted().len() && o.spec_sorted().cell(k, g) == ((o.spec_sorted().y@[pos] + dy) % g) * g
            + (o.spec_sorted().x@[pos] + dx) % g;
    assert(spec_occupied(o.spec_sorted(), g, spec_cell(spec_wrap(o.spec_sorted().x@[pos] + dx, g), spec_wrap(o.spec_sorted().y@[pos] + dy, g), g)));
}

/// A pair that finds no free spot in `SPOT_ATTEMPTS` candidates gets no
/// offspring, and the collision phase goes on with the agents after the
/// pair: the next pair searched for is the first one of neighbours sharing
/// a cell from position `pos + 2` of the spatial order on.
pub proof fn lemma_failed_search_moves_on(o: Simulation, reply: Reply, f: Simulation, req: Request)
    requires
        spec_step(o, reply, f, req),
        o.spec_phase() is Searching,
        reply is Offset,
        spec_candidate_taken(o, o.spec_phase()->Searching_pos as int, reply->Offset_dx, reply->Offset_dy),
        o.spec_phase()->Searching_attempts + 1 >= SPOT_ATTEMPTS,
        exists|q: int|
            #![trigger o.spec_sorted().cell(q, o.spec_config().grid_size as int)]
            o.spec_phase()->Searching_pos + 2 <= q && q + 1 < o.spec_sorted().len() && o.spec_sorted().cell(
                q,
                o.spec_config().grid_size as int,
            ) == o.spec_sorted().cell(q + 1, o.spec_config().grid_size as int),
    ensures
        f.spec_entities() == o.spec_entities(),
        f.spec_phase() is Searching,
        f.spec_phase()->Searching_attempts == 0,
        req is SpotOffset,
        ({
            let s = o.spec_sorted();
            let g = o.spec_config().grid_size as int;
            let pos = o.spec_phase()->Searching_pos as int;
            let p = f.spec_phase()->Searching_pos as int;
            &&& pos + 2 <= p
            &&& p + 1 < s.len()
            &&& s.cell(p, g) == s.cell(p + 1, g)
            &&& forall|q: int| pos + 2 <= q < p ==> #[trigger] s.cell(q, g) != s.cell(q + 1, g)
        }),
{
    let pos = o.spec_phase()->Searching_pos as int;
    let (dx, dy) = (reply->Offset_dx, reply->Offset_dy);
    let s = o.spec_sorted();
    let g = o.spec_config().grid_size as int;
    let k = choose|k: int|
        #![trigger s.cell(k, g)]
        0 <= k < s.len() && s.cell(k, g) == ((s.y@[pos] + dy) % g) * g + (s.x@[pos] + dx) % g;
    assert(spec_occupied(s, g, spec_cell(spec_wrap(s.x@[pos] + dx, g), spec_wrap(s.y@[pos] + dy, g), g)));
    lemma_scan_finds_next_pair(o, pos + 2, f, req);
}


/// A free candidate ends the search: the offspring of the pair at `pos`
/// and `pos + 1` is to be born on the candidate cell, the first parent's
/// cell moved by the offset and wrapped around the torus, and the
/// simulation asks for the blend of the two parents' genes.
pub proof fn lemma_free_candidate_is_chosen(o: Simulation, reply: Reply, f: Simulation, req: Request)
    requires
        spec_step(o, reply, f, req),
        o.spec_phase() is Searching,
        reply is Offset,
        !spec_candidate_taken(o, o.spec_phase()->Searching_pos as int, reply->Offset_dx, reply->Offset_dy),
    ensures
        ({
            let s = o.spec_sorted();
            let g = o.spec_config().grid_size as int;
            let pos = o.spec_phase()->Searching_pos;
            let sd = o.spec_phase()->Searching_saturation_draw;
            let ld = o.spec_phase()->Searching_lightness_draw;
            &&& f.spec_phase() == (Phase::Placing {
                pos,
                saturation_draw: sd,
                lightness_draw: ld,
                x: ((s.x@[pos as int] + reply->Offset_dx) % g) as i32,
                y: ((s.y@[pos as int] + reply->Offset_dy) % g) as i32,
            })
            &&& req == (Request::BlendGenes {
                first: Genes {
                    hue: s.hue@[pos as int],
                    saturation: s.saturation@[pos as int],
                    lightness: s.lightness@[pos as int],
                },
                second: Genes {
                    hue: s.hue@[pos + 1],
                    saturation: s.saturation@[pos + 1],
                    lightness: s.lightness@[pos + 1],
                },
                saturation_draw: sd,
                lightness_draw: ld,
            })
        }),
        f.spec_entities() == o.spec_entities(),
        f.spec_prng() == o.spec_prng(),
{
    let pos = o.spec_phase()->Searching_pos as int;
    let (dx, dy) = (reply->Offset_dx, reply->Offset_dy);
    let s = o.spec_sorted();
    let g = o.spec_config().grid_size as int;
    if spec_occupied(s, g, spec_cell(spec_wrap(s.x@[pos] + dx, g), spec_wrap(s.y@[pos] + dy, g), g)) {
        let k = choose|k: int|
            0 <= k < s.len() && s.cell(k, g) == spec_cell(
                spec_wrap(s.x@[pos] + dx, g),
                spec_wrap(s.y@[pos] + dy, g),
                g,
            );
        assert(s.cell(k, g) == ((s.y@[pos] + dy) % g) * g + (s.x@[pos] + dx) % g);
    }
}

/// After a birth the collision phase goes on with the agents after the
/// pair: the offspring is a new live agent on the chosen cell, born now,
/// with the genes given, and the next pair searched for is the first one of
/// neighbours sharing a cell from position `pos + 2` of the spatial order.
pub proof fn lemma_birth_then_moves_on(o: Simulation, reply: Reply, f: Simulation, req: Request)
    requires
        o.wf(),
        spec_step(o, reply, f, req),
        o.spec_phase() is Placing,
        exists|q: int|
            #![trigger o.spec_sorted().cell(q, o.spec_config().grid_size as int)]
            o.spec_phase()->Placing_pos + 2 <= q && q + 1 < o.spec_sorted().len() && o.spec_sorted().cell(
                q,
                o.spec_config().grid_size as int,
            ) == o.spec_sorted().cell(q + 1, o.spec_config().grid_size as int),
    ensures
        reply is Genes,
        f.spec_entities().active_count == o.spec_entities().active_count + 1,
        exists|idx: int|
            #![trigger f.spec_entities().is_alive@[idx]]
            0 <= idx < f.spec_entities().slots() && !(0 <= idx < o.spec_entities().slots()
                && o.spec_entities().is_alive@[idx]) && f.spec_entities().is_alive@[idx]
                && f.spec_entities().target_x@[idx] == o.spec_phase()->Placing_x
                && f.spec_entities().target_y@[idx] == o.spec_phase()->Placing_y
                && f.spec_entities().birth_tick@[idx] == o.spec_tick()
                && f.spec_entities().hue@[idx] == reply->Genes_0.hue
                && f.spec_entities().saturation@[idx] == reply->Genes_0.saturation
                && f.spec_entities().lightness@[idx] == reply->Genes_0.lightness,
        f.spec_phase() is Searching,
        f.spec_phase()->Searching_attempts == 0,
        req is SpotOffset,
        ({
            let s = o.spec_sorted();
            let g = o.spec_config().grid_size as int;
            let pos = o.spec_phase()->Placing_pos as int;
            let p = f.spec_phase()->Searching_pos as int;
            &&& pos + 2 <= p
            &&& p + 1 < s.len()
            &&& s.cell(p, g) == s.cell(p + 1, g)
            &&& forall|q: int| pos + 2 <= q < p ==> #[trigger] s.cell(q, g) != s.cell(q + 1, g)
        }),
{
    let pos = o.spec_phase()->Placing_pos as int;
    let x = o.spec_phase()->Placing_x;
    let y = o.spec_phase()->Placing_y;
    let genes = reply->Genes_0;
    let m = choose|m: Simulation| #[trigger] spec_birth(o, m, x, y, genes) && spec_scan(m, pos + 2, f, req);
    lemma_birth_adds_agent(o, m, x, y, genes);
    assert(m.spec_sorted() == o.spec_sorted() && m.spec_config() == o.spec_config());
    lemma_scan_finds_next_pair(m, pos + 2, f, req);
}


/// A birth adds one live agent, in a slot that was not live, with the
/// cell, tick and genes given.
proof fn lemma_birth_adds_agent(o: Simulation, m: Simulation, x: i32, y: i32, genes: Genes)
    requires
        o.spec_entities().wf(),
        spec_birth(o, m, x, y, genes),
    ensures
        m.spec_entities().active_count == o.spec_entities().active_count + 1,
        exists|idx: int|
            #![trigger m.spec_entities().is_alive@[idx]]
            0 <= idx < m.spec_entities().slots() && !(0 <= idx < o.spec_entities().slots()
                && o.spec_entities().is_alive@[idx]) && m.spec_entities().is_alive@[idx]
                && m.spec_entities().target_x@[idx] == x && m.spec_entities().target_y@[idx] == y
                && m.spec_entities().birth_tick@[idx] == o.spec_tick() && m.spec_entities().hue@[idx]
                == genes.hue && m.spec_entities().saturation@[idx] == genes.saturation
                && m.spec_entities().lightness@[idx] == genes.lightness,
{
    let e0 = o.spec_entities();
    let e1 = m.spec_entities();
    let idx = e0.lemma_first_free_slot_exists();
    assert(e0.is_first_free_slot(idx));
    if idx == e0.slots() {
        assert(e1.is_alive@ == e0.is_alive@.push(true));
        assert(e1.target_x@ == e0.target_x@.push(x));
        assert(e1.target_y@ == e0.target_y@.push(y));
        assert(e1.birth_tick@ == e0.birth_tick@.push(o.spec_tick()));
        assert(e1.hue@ == e0.hue@.push(genes.hue));
        assert(e1.saturation@ == e0.saturation@.push(genes.saturation));
        assert(e1.lightness@ == e0.lightness@.push(genes.lightness));
    } else {
        assert(e1.is_alive@ == e0.is_alive@.update(idx, true));
        assert(e1.target_x@ == e0.target_x@.update(idx, x));
        assert(e1.target_y@ == e0.target_y@.update(idx, y));
        assert(e1.birth_tick@ == e0.birth_tick@.update(idx, o.spec_tick()));
        assert(e1.hue@ == e0.hue@.update(idx, genes.hue));
        assert(e1.saturation@ == e0.saturation@.update(idx, genes.saturation));
        assert(e1.lightness@ == e0.lightness@.update(idx, genes.lightness));
    }
    assert(e1.is_alive@[idx] && e1.target_x@[idx] == x && e1.target_y@[idx] == y);
}

/// The collision scan from `start`, when some neighbours from `start` on
/// share a cell, asks for a spot for the first such pair.
proof fn lemma_scan_finds_next_pair(o: Simulation, start: int, f: Simulation, req: Request)
    requires
        0 <= start,
        spec_scan(o, start, f, req),
        exists|q: int|
            #![trigger o.spec_sorted().cell(q, o.spec_config().grid_size as int)]
            start <= q && q + 1 < o.spec_sorted().len() && o.spec_sorted().cell(
                q,
                o.spec_config().grid_size as int,
            ) == o.spec_sorted().cell(q + 1, o.spec_config().grid_size as int),
    ensures
        f.spec_entities() == o.spec_entities(),
        f.spec_phase() is Searching,
        f.spec_phase()->Searching_attempts == 0,
        req is SpotOffset,
        ({
            let s = o.spec_sorted();
            let g = o.spec_config().grid_size as int;
            let p = f.spec_phase()->Searching_pos as int;
            &&& start <= p
            &&& p + 1 < s.len()
            &&& s.cell(p, g) == s.cell(p + 1, g)
            &&& forall|q: int| start <= q < p ==> #[trigger] s.cell(q, g) != s.cell(q + 1, g)
        }),
{
    let s = o.spec_sorted();
    let g = o.spec_config().grid_size as int;
    let cells = o.spec_sorted_cells();
    lemma_next_pair_is_first(cells, start);
    let q = choose|q: int|
        #![trigger s.cell(q, g)]
        start <= q && q + 1 < s.len() && s.cell(q, g) == s.cell(q + 1, g);
    assert(cells[q] == cells[q + 1]);
    assert(spec_next_pair(cells, start) is Some);
    assert(s.indices.len() == s.len());
    assert forall|q: int| start <= q < f.spec_phase()->Searching_pos as int implies #[trigger] s.cell(q, g)
        != s.cell(q + 1, g) by {
        assert(cells[q] != cells[q + 1]);
    }
}

} // verus!
