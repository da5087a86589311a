use color_evolution_sim::config::Config;
use color_evolution_sim::entities::Entities;
use color_evolution_sim::simulation::{Genes, Reply, Request, Simulation};

fn config(grid_size: usize, initial_population: usize, seed: u64) -> Config {
    Config {
        grid_size,
        initial_population,
        lifespan_ticks: 4,
        tick_interval_ms: 500,
        seed,
        reproduction_radius: 1,
        stagnation_threshold: 2,
        stagnation_check_ticks: 3,
    }
}

fn answer(req: &Request) -> Reply {
    match *req {
        Request::SeedGenes { hue_class, saturation_draw, lightness_draw } => {
            Reply::Genes(Genes { hue: hue_class, saturation: saturation_draw, lightness: lightness_draw })
        }
        Request::BlendGenes { first, saturation_draw, lightness_draw, .. } => {
            Reply::Genes(Genes { hue: first.hue, saturation: saturation_draw, lightness: lightness_draw })
        }
        Request::SpotOffset { angle_draw, .. } => {
            Reply::Offset { dx: (angle_draw % 3) as i32 - 1, dy: ((angle_draw / 3) % 3) as i32 - 1 }
        }
        Request::Done => Reply::Proceed,
    }
}

fn drive(sim: &mut Simulation, first: Request) -> Vec<Request> {
    let mut log = Vec::new();
    let mut req = first;
    while req != Request::Done {
        log.push(req);
        req = sim.step(answer(&req));
    }
    log
}

fn snapshot(e: &Entities) -> (Vec<bool>, Vec<i32>, Vec<i32>, Vec<i32>, Vec<i32>, Vec<u32>, Vec<u32>, usize) {
    (
        e.is_alive.clone(),
        e.pos_x.clone(),
        e.pos_y.clone(),
        e.target_x.clone(),
        e.target_y.clone(),
        e.hue.clone(),
        e.birth_tick.clone(),
        e.active_count,
    )
}

#[test]
fn simulations_are_reproducible() {
    let mut a = Simulation::new(config(6, 20, 2024));
    let mut b = Simulation::new(config(6, 20, 2024));
    let fa = a.step(Reply::Proceed);
    let fb = b.step(Reply::Proceed);
    assert_eq!(drive(&mut a, fa), drive(&mut b, fb));
    for _ in 0..15 {
        let fa = a.tick();
        let fb = b.tick();
        assert_eq!(drive(&mut a, fa), drive(&mut b, fb));
        assert_eq!(snapshot(a.get_entities()), snapshot(b.get_entities()));
    }
}

#[test]
fn tick_laws_hold_on_a_run() {
    let g = 6usize;
    let mut sim = Simulation::new(config(g, 20, 77));
    let first = sim.step(Reply::Proceed);
    drive(&mut sim, first);
    let mut births = 0;
    for _ in 0..20 {
        let before = snapshot(sim.get_entities());
        let first = sim.tick();
        drive(&mut sim, first);
        let tick = sim.get_current_tick();
        let e = sim.get_entities();
        let live = e.is_alive.iter().filter(|&&b| b).count();
        assert_eq!(e.active_count, live);
        // a finished tick leaves agents alive
        assert!(e.active_count >= 1);
        for i in 0..e.is_alive.len() {
            if !e.is_alive[i] {
                continue;
            }
            // on the grid, no older than the lifespan
            assert!((0..g as i32).contains(&e.target_x[i]) && (0..g as i32).contains(&e.target_y[i]));
            assert!(tick - e.birth_tick[i] <= 4);
            if e.birth_tick[i] < tick {
                // a surviving agent walked one Moore step on from where the last tick left it
                assert!(before.0[i]);
                assert_eq!((e.pos_x[i], e.pos_y[i]), (before.3[i], before.4[i]));
                let dx = (e.target_x[i] - e.pos_x[i]).rem_euclid(g as i32);
                let dy = (e.target_y[i] - e.pos_y[i]).rem_euclid(g as i32);
                let near = |d: i32| d == 0 || d == 1 || d == g as i32 - 1;
                assert!(near(dx) && near(dy) && (dx, dy) != (0, 0));
            } else {
                births += 1;
                // a newborn sits on a cell no agent of the last sort targets
                for j in 0..e.is_alive.len() {
                    if e.is_alive[j] && e.birth_tick[j] < tick {
                        assert_ne!((e.target_x[j], e.target_y[j]), (e.target_x[i], e.target_y[i]));
                    }
                }
            }
        }
    }
    assert!(births > 0);
}

#[test]
fn idle_simulation_answers_done() {
    let mut sim = Simulation::new(config(4, 0, 1));
    assert_eq!(sim.step(Reply::Proceed), Request::Done);
    assert!(sim.is_idle());
    assert_eq!(sim.step(Reply::Proceed), Request::Done);
    assert_eq!(sim.get_entities().active_count, 0);
    assert!(sim.accepts(&Reply::Proceed));
    assert!(!sim.accepts(&Reply::Genes(Genes { hue: 0, saturation: 0, lightness: 0 })));
}

#[test]
fn stagnant_population_is_reseeded_within_the_check_period() {
    let config = Config {
        grid_size: 40,
        initial_population: 2,
        lifespan_ticks: 1000,
        tick_interval_ms: 500,
        seed: 31,
        reproduction_radius: 1,
        stagnation_threshold: 2,
        stagnation_check_ticks: 3,
    };
    let mut sim = Simulation::new(config);
    let first = sim.step(Reply::Proceed);
    drive(&mut sim, first);
    let mut since_reseed = 0;
    let mut reseeds = 0;
    for _ in 0..24 {
        let first = sim.tick();
        drive(&mut sim, first);
        let tick = sim.get_current_tick();
        let e = sim.get_entities();
        let reseeded = (0..e.is_alive.len()).all(|i| !e.is_alive[i] || e.birth_tick[i] == tick);
        if reseeded {
            // the whole initial population is placed afresh
            assert_eq!(e.active_count, 2);
            reseeds += 1;
            since_reseed = 0;
        } else {
            since_reseed += 1;
        }
        // never more than the check period of stagnant ticks without a re-seed
        assert!(since_reseed <= 3);
    }
    assert!(reseeds >= 6);
}

#[test]
fn offsets_beyond_the_radius_are_refused() {
    let mut sim = Simulation::new(config(3, 12, 5));
    let first = sim.step(Reply::Proceed);
    drive(&mut sim, first);
    let mut seen = false;
    for _ in 0..10 {
        let mut req = sim.tick();
        while req != Request::Done {
            if let Request::SpotOffset { radius, .. } = req {
                assert_eq!(radius, 1);
                seen = true;
                assert!(!sim.accepts(&Reply::Offset { dx: 2, dy: 0 }));
                assert!(!sim.accepts(&Reply::Offset { dx: 0, dy: -2 }));
                assert!(sim.accepts(&Reply::Offset { dx: -1, dy: 1 }));
            }
            req = sim.step(answer(&req));
        }
    }
    assert!(seen);
}
