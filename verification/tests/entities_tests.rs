use color_evolution_sim::entities::{
    Entities, DEFAULT_HUE_BITS, DEFAULT_LIGHTNESS_BITS, DEFAULT_SATURATION_BITS,
};

fn live_count(e: &Entities) -> usize {
    e.is_alive.iter().filter(|&&b| b).count()
}

#[test]
fn new_store_is_empty_with_defaults() {
    let e = Entities::new(3);
    assert_eq!(e.is_alive, vec![false; 3]);
    assert_eq!(e.active_count, 0);
    assert_eq!(e.hue, vec![DEFAULT_HUE_BITS; 3]);
    assert_eq!(e.saturation, vec![DEFAULT_SATURATION_BITS; 3]);
    assert_eq!(e.lightness, vec![DEFAULT_LIGHTNESS_BITS; 3]);
    assert_eq!(DEFAULT_SATURATION_BITS, 0.7f32.to_bits());
    assert_eq!(DEFAULT_LIGHTNESS_BITS, 0.5f32.to_bits());
    assert_eq!(DEFAULT_HUE_BITS, 0.0f32.to_bits());
}

#[test]
fn add_fills_first_free_slot_then_grows() {
    let mut e = Entities::new(2);
    assert_eq!(e.add_agent(1, 2, 10, 11, 12, 5), Some(0));
    assert_eq!(e.add_agent(3, 4, 20, 21, 22, 6), Some(1));
    // store full: a new slot is appended
    assert_eq!(e.add_agent(5, 6, 30, 31, 32, 7), Some(2));
    assert_eq!(e.is_alive.len(), 3);
    assert_eq!(e.active_count, 3);
    assert_eq!(e.pos_x, vec![1, 3, 5]);
    assert_eq!(e.target_y, vec![2, 4, 6]);
    assert_eq!(e.hue, vec![10, 20, 30]);
    assert_eq!(e.birth_tick, vec![5, 6, 7]);
    e.kill_agent(1);
    assert_eq!(e.active_count, 2);
    // the freed slot is reused before growing
    assert_eq!(e.add_agent(8, 9, 40, 41, 42, 8), Some(1));
    assert_eq!(e.pos_x, vec![1, 8, 5]);
    assert_eq!(e.is_alive, vec![true, true, true]);
    assert_eq!(e.active_count, live_count(&e));
}

#[test]
fn kill_ignores_dead_and_missing_slots() {
    let mut e = Entities::new(2);
    e.add_agent(0, 0, 0, 0, 0, 0);
    e.kill_agent(1); // dead slot
    e.kill_agent(7); // no such slot
    assert_eq!(e.active_count, 1);
    e.kill_agent(0);
    e.kill_agent(0);
    assert_eq!(e.active_count, 0);
    assert_eq!(e.is_alive, vec![false, false]);
}

#[test]
fn reset_kills_everyone_and_keeps_data() {
    let mut e = Entities::new(1);
    e.add_agent(4, 5, 1, 2, 3, 9);
    e.add_agent(6, 7, 1, 2, 3, 9);
    e.reset();
    assert_eq!(e.active_count, 0);
    assert_eq!(e.is_alive, vec![false, false]);
    assert_eq!(e.pos_x, vec![4, 6]);
}

#[test]
fn active_count_tracks_live_slots() {
    let mut e = Entities::new(4);
    for i in 0..10 {
        e.add_agent(i, i, 0, 0, 0, 0);
        if i % 3 == 0 {
            e.kill_agent((i / 2) as usize);
        }
        assert_eq!(e.active_count, live_count(&e));
    }
}

#[test]
fn live_slots_in_slot_order() {
    let mut e = Entities::new(4);
    assert_eq!(e.live_slots(), Vec::<usize>::new());
    e.add_agent(0, 0, 0, 0, 0, 0);
    e.add_agent(0, 0, 0, 0, 0, 0);
    e.add_agent(0, 0, 0, 0, 0, 0);
    e.kill_agent(1);
    assert_eq!(e.live_slots(), vec![0, 2]);
    e.add_agent(0, 0, 0, 0, 0, 0);
    e.add_agent(0, 0, 0, 0, 0, 0);
    assert_eq!(e.live_slots(), vec![0, 1, 2, 3]);
}
