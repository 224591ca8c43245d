use gaia_maker::sim_control::{advance_due, autosave_due, redraw_due, toggle_pause, GameSpeed, HighLow3, SimTiming};

#[test]
fn pause_key() {
    let mut speed = GameSpeed::Fast;
    let mut remembered = GameSpeed::default();
    toggle_pause(&mut speed, &mut remembered);
    assert_eq!((speed, remembered), (GameSpeed::Paused, GameSpeed::Fast));
    toggle_pause(&mut speed, &mut remembered);
    assert_eq!((speed, remembered), (GameSpeed::Fast, GameSpeed::Paused));
    let mut speed = GameSpeed::Paused;
    let mut remembered = GameSpeed::Paused;
    toggle_pause(&mut speed, &mut remembered);
    assert_eq!((speed, remembered), (GameSpeed::Medium, GameSpeed::Paused));
    toggle_pause(&mut speed, &mut remembered);
    assert_eq!(speed, GameSpeed::Paused);
}

#[test]
fn advancing_frames() {
    let t = SimTiming { slow_loop_ms: 500, medium_loop_ms: 100 };
    let ms = 1_000_000u64;
    assert!(!advance_due(GameSpeed::Paused, 10_000 * ms, 0, &t));
    assert!(advance_due(GameSpeed::Fast, 0, 16 * ms, &t));
    assert!(!advance_due(GameSpeed::Fast, 0, 33 * ms, &t));
    assert!(!advance_due(GameSpeed::Slow, 500 * ms, 16 * ms, &t));
    assert!(advance_due(GameSpeed::Slow, 500 * ms + 1, 16 * ms, &t));
    assert!(advance_due(GameSpeed::Medium, 101 * ms, 16 * ms, &t));
    assert!(!advance_due(GameSpeed::Medium, 99 * ms, 16 * ms, &t));
}

#[test]
fn autosave_and_redraw() {
    assert!(autosave_due(true, 300, 100));
    assert!(!autosave_due(true, 301, 100));
    assert!(!autosave_due(false, 300, 0));
    let ms = 1_000_000u64;
    assert!(redraw_due(true, 34 * ms, HighLow3::High));
    assert!(!redraw_due(true, 33 * ms, HighLow3::High));
    assert!(!redraw_due(false, 1000 * ms, HighLow3::Low));
    assert!(redraw_due(true, 143 * ms, HighLow3::Low));
    assert!(!redraw_due(true, 142 * ms, HighLow3::Low));
    assert!(redraw_due(true, 67 * ms, HighLow3::Medium));
}
