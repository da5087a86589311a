//! The schedule of the main loop: logic ticks and render frames run on
//! clocks of their own.
use vstd::prelude::*;

verus! {

/// Milliseconds between two render frames (about 60 frames a second).
pub const FRAME_INTERVAL_MS: u64 = 16;

/// A run stops once the tick counter passes this many ticks.
pub const TICK_LIMIT: u32 = 100;

/// A tick is reported when its number is a multiple of this.
pub const TICK_REPORT_EVERY: u32 = 10;

/// A frame is reported when the tick counter is a multiple of this.
pub const FRAME_REPORT_EVERY: u32 = 20;

/// What one pass of the main loop does, in this order: run a logic tick
/// (and report it), draw a frame (and report it), then stop or go on.
#[derive(Clone, Copy, Debug, PartialEq, Eq, Structural)]
pub struct LoopStep {
    pub run_tick: bool,
    pub report_tick: bool,
    pub render_frame: bool,
    pub report_frame: bool,
    pub stop: bool,
}

/// The tick counter after the pass: one more when the pass runs a tick.
pub open spec fn spec_ticks_after(ticks_done: u32, run_tick: bool) -> int {
    ticks_done + if run_tick {
        1int
    } else {
        0int
    }
}

/// The schedule of one pass of the main loop, `since_tick_ms` milliseconds
/// after the last tick and `since_frame_ms` after the last frame, with
/// `ticks_done` ticks run so far: a tick is due once the tick interval has
/// passed, a frame once the frame interval has; every tenth tick and, when
/// the tick counter is a multiple of twenty, the frames are reported; the
/// run stops once the tick counter passes the tick limit.
pub fn loop_step(since_tick_ms: u64, since_frame_ms: u64, tick_interval_ms: u64, ticks_done: u32) -> (s: LoopStep)
    requires
        ticks_done < u32::MAX,
    ensures
        s.run_tick == (since_tick_ms >= tick_interval_ms),
        s.report_tick == (s.run_tick && (ticks_done + 1) % (TICK_REPORT_EVERY as int) == 0),
        s.render_frame == (since_frame_ms >= FRAME_INTERVAL_MS),
        s.report_frame == (s.render_frame && spec_ticks_after(ticks_done, s.run_tick) % (
        FRAME_REPORT_EVERY as int) == 0),
        s.stop == (spec_ticks_after(ticks_done, s.run_tick) > TICK_LIMIT),
{
    let run_tick = since_tick_ms >= tick_interval_ms;
    let ticks = if run_tick {
        ticks_done + 1
    } else {
        ticks_done
    };
    let render_frame = since_frame_ms >= FRAME_INTERVAL_MS;
    LoopStep {
        run_tick,
        report_tick: run_tick && ticks % TICK_REPORT_EVERY == 0,
        render_frame,
        report_frame: render_frame && ticks % FRAME_REPORT_EVERY == 0,
        stop: ticks > TICK_LIMIT,
    }
}

} // verus!
