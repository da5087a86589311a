use color_evolution_sim::driver::{loop_step, LoopStep, FRAME_INTERVAL_MS, TICK_LIMIT};

#[test]
fn nothing_due_right_after_a_tick_and_a_frame() {
    assert_eq!(
        loop_step(0, 0, 500, 3),
        LoopStep { run_tick: false, report_tick: false, render_frame: false, report_frame: false, stop: false }
    );
}

#[test]
fn tick_due_once_the_interval_has_passed() {
    assert!(!loop_step(499, 0, 500, 0).run_tick);
    assert!(loop_step(500, 0, 500, 0).run_tick);
    assert!(loop_step(731, 0, 500, 0).run_tick);
}

#[test]
fn frame_due_every_sixteen_milliseconds() {
    assert_eq!(FRAME_INTERVAL_MS, 16);
    assert!(!loop_step(0, 15, 500, 0).render_frame);
    assert!(loop_step(0, 16, 500, 0).render_frame);
}

#[test]
fn every_tenth_tick_is_reported() {
    assert!(loop_step(500, 0, 500, 9).report_tick);
    assert!(!loop_step(500, 0, 500, 10).report_tick);
    assert!(!loop_step(100, 0, 500, 9).report_tick);
}

#[test]
fn frames_are_reported_when_the_tick_count_is_a_multiple_of_twenty() {
    // the tick of this pass counts
    assert!(loop_step(500, 16, 500, 19).report_frame);
    assert!(!loop_step(100, 16, 500, 19).report_frame);
    assert!(loop_step(100, 16, 500, 20).report_frame);
    assert!(loop_step(100, 16, 500, 0).report_frame);
    assert!(!loop_step(100, 10, 500, 20).report_frame);
}

#[test]
fn run_stops_after_the_tick_limit() {
    assert_eq!(TICK_LIMIT, 100);
    assert!(!loop_step(500, 0, 500, 99).stop);
    assert!(loop_step(500, 0, 500, 100).stop);
    assert!(!loop_step(100, 0, 500, 100).stop);
    assert!(loop_step(100, 0, 500, 101).stop);
}
