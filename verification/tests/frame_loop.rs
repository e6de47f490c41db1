use workplacesim::config::{Config, DEFAULT_WINDOW_H, DEFAULT_WINDOW_W};
use workplacesim::render::frame_loop::{frame_budget_ms, needs_rebuild, readout_due, track_idle, DisplaySnapshot};

#[test]
fn idle_readout_gates_on_2_second_threshold() {
    assert!(!readout_due(1_000, None));
    assert!(!readout_due(1_500, Some(0)));
    assert!(!readout_due(2_000, Some(0)));
    assert!(readout_due(2_001, Some(0)));
    assert!(!readout_due(9_999, None));
}

#[test]
fn idle_mark_is_set_once_and_cleared_by_activity() {
    let t = track_idle(None, 0, 100);
    assert_eq!(t, Some(100));
    let t = track_idle(t, 0, 500);
    assert_eq!(t, Some(100));
    assert_eq!(track_idle(t, 2, 600), None);
}

#[test]
fn display_snapshot_defaults_zero_dimensions() {
    let mut c = Config::default();
    c.window_w = 0;
    c.window_h = 0;
    c.fullscreen = true;
    let s = DisplaySnapshot::from_config(&c);
    assert_eq!(s, DisplaySnapshot { w: DEFAULT_WINDOW_W, h: DEFAULT_WINDOW_H, fullscreen: true });
    let f = DisplaySnapshot::fallback();
    assert!(!f.fullscreen);
    assert!(needs_rebuild(s, f));
    assert!(!needs_rebuild(s, s));
}

#[test]
fn frame_budget_follows_fps() {
    assert_eq!(frame_budget_ms(30), 33);
    assert_eq!(frame_budget_ms(0), 1000);
    assert_eq!(frame_budget_ms(120), 8);
}
