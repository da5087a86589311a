use color_evolution_sim::config::Config;
use color_evolution_sim::simulation::{Genes, Reply, Request, Simulation};

fn small_config(
    grid_size: usize,
    initial_population: usize,
    lifespan_ticks: u32,
    seed: u64,
    stagnation_threshold: usize,
    stagnation_check_ticks: u32,
) -> Config {
    Config {
        grid_size,
        initial_population,
        lifespan_ticks,
        tick_interval_ms: 500,
        seed,
        reproduction_radius: 2,
        stagnation_threshold,
        stagnation_check_ticks,
    }
}

/// A deterministic stand-in for the colour arithmetic of the driver: it
/// answers each request with integers derived from the request.
fn answer(req: &Request) -> Reply {
    match *req {
        Request::SeedGenes { hue_class, saturation_draw, lightness_draw } => Reply::Genes(Genes {
            hue: hue_class,
            saturation: saturation_draw,
            lightness: lightness_draw,
        }),
        Request::BlendGenes { first, second, saturation_draw, lightness_draw } => {
            Reply::Genes(Genes {
                hue: first.hue.wrapping_add(second.hue),
                saturation: saturation_draw,
                lightness: lightness_draw,
            })
        }
        Request::SpotOffset { angle_draw, .. } => Reply::Offset {
            dx: (angle_draw % 5) as i32 - 2,
            dy: ((angle_draw / 5) % 5) as i32 - 2,
        },
        Request::Done => Reply::Proceed,
    }
}

/// Answers requests until the simulation is idle; returns the requests.
fn drive(sim: &mut Simulation, first: Request) -> Vec<Request> {
    let mut log = Vec::new();
    let mut req = first;
    while req != Request::Done {
        log.push(req);
        let reply = answer(&req);
        assert!(sim.accepts(&reply));
        req = sim.step(reply);
    }
    log
}

/// On a crowded 3x3 grid agents pair up, search birth spots (some candidates are taken) and give birth.
#[test]
fn ticks_with_collisions_and_births() {
    let config = small_config(3, 6, 500, 12345, 100, 20);
    let mut sim = Simulation::new(config);
    let first = sim.step(Reply::Proceed);
    assert_eq!(
        drive(&mut sim, first),
        vec![
            Request::SeedGenes { hue_class: 1, saturation_draw: 2258053, lightness_draw: 6151697 },
            Request::SeedGenes { hue_class: 0, saturation_draw: 314139, lightness_draw: 11832064 },
            Request::SeedGenes { hue_class: 2, saturation_draw: 12428879, lightness_draw: 6981492 },
            Request::SeedGenes { hue_class: 2, saturation_draw: 9271810, lightness_draw: 2898161 },
            Request::SeedGenes { hue_class: 1, saturation_draw: 1599259, lightness_draw: 1059343 },
            Request::SeedGenes { hue_class: 1, saturation_draw: 11892746, lightness_draw: 16105061 },
        ],
    );
    // tick 1
    let first = sim.tick();
    assert_eq!(
        drive(&mut sim, first),
        vec![
            Request::SpotOffset { angle_draw: 16516478, radius: 2 },
            Request::BlendGenes { first: Genes { hue: 2, saturation: 9271810, lightness: 2898161 }, second: Genes { hue: 1, saturation: 11892746, lightness: 16105061 }, saturation_draw: 11034541, lightness_draw: 3112461 },
        ],
    );
    // tick 2
    let first = sim.tick();
    assert_eq!(
        drive(&mut sim, first),
        vec![
            Request::SpotOffset { angle_draw: 1700493, radius: 2 },
            Request::BlendGenes { first: Genes { hue: 1, saturation: 2258053, lightness: 6151697 }, second: Genes { hue: 2, saturation: 12428879, lightness: 6981492 }, saturation_draw: 9171345, lightness_draw: 13528296 },
            Request::SpotOffset { angle_draw: 313339, radius: 2 },
            Request::BlendGenes { first: Genes { hue: 1, saturation: 1599259, lightness: 1059343 }, second: Genes { hue: 1, saturation: 11892746, lightness: 16105061 }, saturation_draw: 15122782, lightness_draw: 9640017 },
        ],
    );
    // tick 3
    let first = sim.tick();
    assert_eq!(
        drive(&mut sim, first),
        vec![
            Request::SpotOffset { angle_draw: 7167526, radius: 2 },
            Request::BlendGenes { first: Genes { hue: 1, saturation: 2258053, lightness: 6151697 }, second: Genes { hue: 2, saturation: 12428879, lightness: 6981492 }, saturation_draw: 15168186, lightness_draw: 2134927 },
            Request::SpotOffset { angle_draw: 3563050, radius: 2 },
            Request::BlendGenes { first: Genes { hue: 1, saturation: 1599259, lightness: 1059343 }, second: Genes { hue: 1, saturation: 11892746, lightness: 16105061 }, saturation_draw: 10921986, lightness_draw: 994185 },
        ],
    );
    let e = sim.get_entities();
    assert_eq!(e.is_alive, vec![true, true, true, true, true, true, true, true, true, true, true, false]);
    assert_eq!(e.active_count, 11);
    assert_eq!(e.target_x, vec![1, 0, 1, 1, 2, 2, 1, 2, 2, 0, 0, 0]);
    assert_eq!(e.target_y, vec![0, 2, 0, 2, 0, 0, 1, 1, 0, 1, 1, 0]);
    assert_eq!(e.pos_x, vec![2, 1, 2, 1, 2, 2, 2, 0, 1, 0, 0, 0]);
    assert_eq!(e.pos_y, vec![2, 1, 2, 0, 2, 2, 0, 0, 2, 1, 1, 0]);
    assert_eq!(e.hue, vec![1, 0, 2, 2, 1, 1, 3, 3, 2, 3, 2, 0]);
    assert_eq!(e.saturation, vec![2258053, 314139, 12428879, 9271810, 1599259, 11892746, 11034541, 9171345, 15122782, 15168186, 10921986, 1060320051]);
    assert_eq!(e.lightness, vec![6151697, 11832064, 6981492, 2898161, 1059343, 16105061, 3112461, 13528296, 9640017, 2134927, 994185, 1056964608]);
    assert_eq!(e.birth_tick, vec![0, 0, 0, 0, 0, 0, 1, 2, 2, 3, 3, 0]);
    assert_eq!(sim.get_current_tick(), 3);
    assert!(sim.is_idle());
}
/// Agents older than their lifespan die; an empty world is seeded again in the same tick.
#[test]
fn extinct_population_is_reseeded() {
    let config = small_config(5, 3, 1, 7, 0, 20);
    let mut sim = Simulation::new(config);
    let first = sim.step(Reply::Proceed);
    assert_eq!(
        drive(&mut sim, first),
        vec![
            Request::SeedGenes { hue_class: 0, saturation_draw: 4904645, lightness_draw: 9978571 },
            Request::SeedGenes { hue_class: 1, saturation_draw: 8426597, lightness_draw: 4711220 },
            Request::SeedGenes { hue_class: 0, saturation_draw: 3690396, lightness_draw: 14413860 },
        ],
    );
    // tick 1
    let first = sim.tick();
    assert_eq!(
        drive(&mut sim, first),
        Vec::<Request>::new(),
    );
    // tick 2
    let first = sim.tick();
    assert_eq!(
        drive(&mut sim, first),
        vec![
            Request::SeedGenes { hue_class: 2, saturation_draw: 2217585, lightness_draw: 10362722 },
            Request::SeedGenes { hue_class: 1, saturation_draw: 1081158, lightness_draw: 12083098 },
            Request::SeedGenes { hue_class: 2, saturation_draw: 14118837, lightness_draw: 7483857 },
        ],
    );
    // tick 3
    let first = sim.tick();
    assert_eq!(
        drive(&mut sim, first),
        Vec::<Request>::new(),
    );
    let e = sim.get_entities();
    assert_eq!(e.is_alive, vec![true, true, true, false, false, false]);
    assert_eq!(e.active_count, 3);
    assert_eq!(e.target_x, vec![4, 1, 2, 0, 0, 0]);
    assert_eq!(e.target_y, vec![3, 0, 0, 0, 0, 0]);
    assert_eq!(e.pos_x, vec![4, 2, 1, 0, 0, 0]);
    assert_eq!(e.pos_y, vec![4, 0, 4, 0, 0, 0]);
    assert_eq!(e.hue, vec![2, 1, 2, 0, 0, 0]);
    assert_eq!(e.saturation, vec![2217585, 1081158, 14118837, 1060320051, 1060320051, 1060320051]);
    assert_eq!(e.lightness, vec![10362722, 12083098, 7483857, 1056964608, 1056964608, 1056964608]);
    assert_eq!(e.birth_tick, vec![2, 2, 2, 0, 0, 0]);
    assert_eq!(sim.get_current_tick(), 3);
    assert!(sim.is_idle());
}
/// A population that barely changes for more than the check period is seeded again.
#[test]
fn stagnant_population_is_reseeded() {
    let config = small_config(40, 3, 500, 99, 100, 1);
    let mut sim = Simulation::new(config);
    let first = sim.step(Reply::Proceed);
    assert_eq!(
        drive(&mut sim, first),
        vec![
            Request::SeedGenes { hue_class: 0, saturation_draw: 16637625, lightness_draw: 9965567 },
            Request::SeedGenes { hue_class: 0, saturation_draw: 16023696, lightness_draw: 10450027 },
            Request::SeedGenes { hue_class: 0, saturation_draw: 10006092, lightness_draw: 2736614 },
        ],
    );
    // tick 1
    let first = sim.tick();
    assert_eq!(
        drive(&mut sim, first),
        Vec::<Request>::new(),
    );
    // tick 2
    let first = sim.tick();
    assert_eq!(
        drive(&mut sim, first),
        vec![
            Request::SeedGenes { hue_class: 1, saturation_draw: 6153200, lightness_draw: 15966827 },
            Request::SeedGenes { hue_class: 0, saturation_draw: 11101929, lightness_draw: 5863049 },
            Request::SeedGenes { hue_class: 2, saturation_draw: 12795832, lightness_draw: 11166864 },
        ],
    );
    // tick 3
    let first = sim.tick();
    assert_eq!(
        drive(&mut sim, first),
        Vec::<Request>::new(),
    );
    let e = sim.get_entities();
    assert_eq!(e.is_alive, vec![true, true, true, false, false, false]);
    assert_eq!(e.active_count, 3);
    assert_eq!(e.target_x, vec![29, 38, 14, 0, 0, 0]);
    assert_eq!(e.target_y, vec![18, 9, 18, 0, 0, 0]);
    assert_eq!(e.pos_x, vec![28, 37, 13, 0, 0, 0]);
    assert_eq!(e.pos_y, vec![19, 9, 17, 0, 0, 0]);
    assert_eq!(e.hue, vec![1, 0, 2, 0, 0, 0]);
    assert_eq!(e.saturation, vec![6153200, 11101929, 12795832, 1060320051, 1060320051, 1060320051]);
    assert_eq!(e.lightness, vec![15966827, 5863049, 11166864, 1056964608, 1056964608, 1056964608]);
    assert_eq!(e.birth_tick, vec![2, 2, 2, 0, 0, 0]);
    assert_eq!(sim.get_current_tick(), 3);
    assert!(sim.is_idle());
}
