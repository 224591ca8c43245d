//! When the simulation runs: the game speed, pausing, and which frames
//! advance the planet, save it automatically, or redraw the map.
use vstd::prelude::*;

verus! {

/// How fast the simulation runs.
#[derive(Clone, Copy, PartialEq, Eq, Structural, Debug)]
pub enum GameSpeed {
    Paused,
    Slow,
    Medium,
    Fast,
}

impl Default for GameSpeed {
    fn default() -> (r: GameSpeed)
        ensures
            r == GameSpeed::Paused,
    {
        GameSpeed::Paused
    }
}

/// The speed and the remembered speed after the pause key: a running game
/// pauses and remembers its speed; a paused game goes back to the remembered
/// speed, or to the medium speed when none is remembered.
pub open spec fn spec_toggle_pause(speed: GameSpeed, remembered: GameSpeed) -> (GameSpeed, GameSpeed) {
    if speed == GameSpeed::Paused {
        let back = if remembered == GameSpeed::Paused {
            GameSpeed::Medium
        } else {
            remembered
        };
        (back, GameSpeed::Paused)
    } else {
        (GameSpeed::Paused, speed)
    }
}

/// Presses the pause key: updates the speed and the remembered speed.
pub fn toggle_pause(speed: &mut GameSpeed, remembered: &mut GameSpeed)
    ensures
        (*final(speed), *final(remembered)) == spec_toggle_pause(*old(speed), *old(remembered)),
{
    match *speed {
        GameSpeed::Paused => {
            if *remembered == GameSpeed::Paused {
                *remembered = GameSpeed::Medium;
            }
            std::mem::swap(speed, remembered);
        },
        _ => {
            *remembered = *speed;
            *speed = GameSpeed::Paused;
        },
    }
}

/// Pressing the pause key twice gives back the speed that the game had; a
/// running game never stays paused, and a paused game runs after one press.
pub proof fn law_pause_twice(speed: GameSpeed, remembered: GameSpeed)
    ensures
        ({
            let (s1, r1) = spec_toggle_pause(speed, remembered);
            let (s2, r2) = spec_toggle_pause(s1, r1);
            &&& s2 == speed
            &&& (speed == GameSpeed::Paused) != (s1 == GameSpeed::Paused)
        }),
{
}

/// The least time between two cycles at slow and at medium speed, in
/// milliseconds, and the time of a frame below which the planet advances.
pub struct SimTiming {
    pub slow_loop_ms: u64,
    pub medium_loop_ms: u64,
}

/// A frame lasts at most this long, in milliseconds, for the planet to advance in it.
pub const MAX_ADVANCE_FRAME_MS: u64 = 33;

/// Whether the planet advances in this frame: the speed asks for a cycle
/// (the slow and medium speeds once their time since the last cycle has
/// passed, the fast speed at every frame), and the last frame was short
/// enough. Times are in nanoseconds.
pub open spec fn spec_advance_due(speed: GameSpeed, since_advance_ns: u64, since_frame_ns: u64, t: SimTiming) -> bool {
    let wanted = match speed {
        GameSpeed::Paused => false,
        GameSpeed::Slow => since_advance_ns > t.slow_loop_ms * 1_000_000,
        GameSpeed::Medium => since_advance_ns > t.medium_loop_ms * 1_000_000,
        GameSpeed::Fast => true,
    };
    wanted && since_frame_ns < MAX_ADVANCE_FRAME_MS * 1_000_000
}

fn ms_to_ns(ms: u64) -> (r: u128)
    ensures
        r == ms * 1_000_000,
{
    (ms as u128) * 1_000_000
}

/// Whether the planet advances in this frame.
pub fn advance_due(speed: GameSpeed, since_advance_ns: u64, since_frame_ns: u64, timing: &SimTiming) -> (r: bool)
    ensures
        r == spec_advance_due(speed, since_advance_ns, since_frame_ns, *timing),
{
    let wanted = match speed {
        GameSpeed::Paused => false,
        GameSpeed::Slow => (since_advance_ns as u128) > ms_to_ns(timing.slow_loop_ms),
        GameSpeed::Medium => (since_advance_ns as u128) > ms_to_ns(timing.medium_loop_ms),
        GameSpeed::Fast => true,
    };
    wanted && (since_frame_ns as u128) < ms_to_ns(MAX_ADVANCE_FRAME_MS)
}

/// Whether the planet is saved automatically after reaching `cycles`.
pub fn autosave_due(autosave_enabled: bool, cycles: u64, autosave_cycle_duration: u64) -> (r: bool)
    requires
        autosave_enabled ==> autosave_cycle_duration > 0,
    ensures
        r == (autosave_enabled && cycles % autosave_cycle_duration == 0),
{
    autosave_enabled && cycles % autosave_cycle_duration == 0
}

/// A setting of three levels.
#[derive(Clone, Copy, PartialEq, Eq, Structural, Debug)]
pub enum HighLow3 {
    Low,
    Medium,
    High,
}

/// Frames per second at which the map is redrawn for a refresh setting.
pub open spec fn spec_refresh_frames(rate: HighLow3) -> u64 {
    match rate {
        HighLow3::Low => 7,
        HighLow3::Medium => 15,
        HighLow3::High => 30,
    }
}

/// Whether the map is redrawn in this frame: after a cycle, once a redraw
/// period of the refresh setting has passed. Times are in nanoseconds.
pub fn redraw_due(advanced: bool, since_draw_ns: u64, rate: HighLow3) -> (r: bool)
    ensures
        r == (advanced && since_draw_ns > (1000u64 / spec_refresh_frames(rate)) * 1_000_000),
{
    let frames: u64 = match rate {
        HighLow3::Low => 7,
        HighLow3::Medium => 15,
        HighLow3::High => 30,
    };
    advanced && (since_draw_ns as u128) > ms_to_ns(1000 / frames)
}

} // verus!
