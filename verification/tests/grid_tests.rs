use color_evolution_sim::grid::{move_delta, wrap_coordinate};
use color_evolution_sim::spatial::{sort_by_cell, SortedAgents};
use color_evolution_sim::entities::Entities;

#[test]
fn wrapping_loops_at_edges() {
    assert_eq!(wrap_coordinate(-1, 1000), 999);
    assert_eq!(wrap_coordinate(1000, 1000), 0);
    assert_eq!(wrap_coordinate(5, 1000), 5);
    assert_eq!(wrap_coordinate(-2001, 1000), 999);
    assert_eq!(wrap_coordinate(7, 1), 0);
    for n in -50i64..50 {
        let r = wrap_coordinate(n, 7);
        assert!((0..7).contains(&r));
        assert_eq!((r as i64 - n).rem_euclid(7), 0);
    }
}

#[test]
fn moore_neighbourhood_directions() {
    let expected = [(0, -1), (1, -1), (1, 0), (1, 1), (0, 1), (-1, 1), (-1, 0), (-1, -1)];
    for (dir, d) in expected.iter().enumerate() {
        assert_eq!(move_delta(dir as u32), *d);
    }
    assert_eq!(move_delta(8), (-1, -1));
    assert_eq!(move_delta(u32::MAX), (-1, -1));
}

#[test]
fn sort_is_by_cell_then_slot() {
    let alive = vec![true, true, false, true, true, true];
    let tx = vec![1, 0, 0, 1, 0, 2];
    let ty = vec![1, 1, 0, 1, 0, 0];
    // cells (grid 3): 4, 3, -, 4, 0, 2
    assert_eq!(sort_by_cell(&alive, &tx, &ty, 3), vec![4, 5, 1, 0, 3]);
    assert_eq!(sort_by_cell(&vec![false; 3], &vec![0; 3], &vec![0; 3], 3), Vec::<usize>::new());
}

#[test]
fn snapshot_copies_sorted_agents() {
    let mut e = Entities::new(0);
    e.add_agent(2, 2, 7, 8, 9, 1);
    e.add_agent(0, 0, 4, 5, 6, 2);
    e.add_agent(2, 2, 1, 2, 3, 3);
    let s = SortedAgents::snapshot(&e, 3);
    assert_eq!(s.indices, vec![1, 0, 2]);
    assert_eq!(s.x, vec![0, 2, 2]);
    assert_eq!(s.hue, vec![4, 7, 1]);
    assert_eq!(s.birth, vec![2, 1, 3]);
}
