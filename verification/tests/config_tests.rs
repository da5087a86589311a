use color_evolution_sim::config::Config;
use color_evolution_sim::simulation::{stagnation_update, Reply, Request, Simulation};

#[test]
fn default_config_values() {
    let c = Config::default();
    assert_eq!(c.grid_size, 1000);
    assert_eq!(c.initial_population, 10_000);
    assert_eq!(c.lifespan_ticks, 500);
    assert_eq!(c.tick_interval_ms, 500);
    assert_eq!(c.seed, 12345);
    assert_eq!(c.reproduction_radius, 2);
    assert_eq!(c.stagnation_threshold, 100);
    assert_eq!(c.stagnation_check_ticks, 20);
    assert!(c.is_valid());
    let copy = c.clone();
    assert_eq!(copy.seed, c.seed);
}

#[test]
fn invalid_configs_are_detected() {
    let mut c = Config::default();
    c.grid_size = 0;
    assert!(!c.is_valid());
    c.grid_size = 46341;
    assert!(!c.is_valid());
    c.grid_size = 46340;
    assert!(c.is_valid());
    c.stagnation_check_ticks = u32::MAX;
    assert!(c.is_valid());
    c.initial_population = usize::MAX / 2 + 1;
    assert!(!c.is_valid());
}

#[test]
fn stagnation_counter_rules() {
    // small change: one more stagnant tick
    assert_eq!(stagnation_update(100, 95, 3, 10, 20), (4, false));
    // too many stagnant ticks: re-seed and restart the count
    assert_eq!(stagnation_update(100, 95, 20, 10, 20), (0, true));
    // large change restarts the count
    assert_eq!(stagnation_update(100, 150, 7, 10, 20), (0, false));
    assert_eq!(stagnation_update(150, 100, 7, 50, 20), (8, false));
}

#[test]
fn default_simulation_seeds_its_population() {
    let mut sim = Simulation::new(Config::default());
    assert_eq!(sim.get_current_tick(), 0);
    let mut req = sim.step(Reply::Proceed);
    let mut founders = 0;
    while let Request::SeedGenes { hue_class, saturation_draw, lightness_draw } = req {
        assert!(hue_class < 3);
        assert!(saturation_draw < (1 << 24) && lightness_draw < (1 << 24));
        founders += 1;
        req = sim.step(Reply::Genes(color_evolution_sim::simulation::Genes {
            hue: hue_class,
            saturation: saturation_draw,
            lightness: lightness_draw,
        }));
    }
    assert_eq!(req, Request::Done);
    assert_eq!(founders, 10_000);
    assert_eq!(sim.get_entities().active_count, 10_000);
    assert!(sim.is_idle());
    assert!(!sim.accepts(&Reply::Offset { dx: 0, dy: 0 }));
}

#[test]
fn empty_world_on_empty_grid_runs() {
    let mut c = Config::default();
    c.grid_size = 0;
    c.initial_population = 0;
    assert!(c.is_valid());
    let mut sim = Simulation::new(c);
    assert_eq!(sim.step(Reply::Proceed), Request::Done);
    for t in 1..=5u32 {
        assert_eq!(sim.tick(), Request::Done);
        assert_eq!(sim.get_current_tick(), t);
        assert_eq!(sim.get_entities().active_count, 0);
    }
}
