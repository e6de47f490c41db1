use workplacesim::config::{
    Bounds, Config, ConfigSource, LoadOutcome, settle, DEFAULT_BENCH_FLASH_MS, DEFAULT_BOB_CYCLE_MS, DEFAULT_ERROR_GLYPH_MS, DEFAULT_FILE_TICK_CAP, DEFAULT_FILE_TICK_MS, DEFAULT_FOOTSTEP_INTERVAL_MS, DEFAULT_FOOTSTEP_LIFETIME_MS, DEFAULT_FULLSCREEN, DEFAULT_HALO_LIFETIME_MS, DEFAULT_MIN_SEGMENT_MS, DEFAULT_MOTE_CAP, DEFAULT_MOTE_LIFETIME_MS, DEFAULT_PENDING_TTL_MS, DEFAULT_STOP_GRACE_MS, DEFAULT_TARGET_FPS, DEFAULT_TETHER_LIFETIME_MS, DEFAULT_VISIT_DEFAULT_MS, DEFAULT_VISIT_MAX_MS, DEFAULT_VISIT_MIN_MS, DEFAULT_WINDOW_H, DEFAULT_WINDOW_W,
};

#[test]
fn default_matches_consts() {
    let c = Config::default();
    assert_eq!(c.min_segment_ms, DEFAULT_MIN_SEGMENT_MS);
    assert_eq!(c.bob_cycle_ms, DEFAULT_BOB_CYCLE_MS);
    assert_eq!(c.footstep_lifetime_ms, DEFAULT_FOOTSTEP_LIFETIME_MS);
    assert_eq!(c.footstep_interval_ms, DEFAULT_FOOTSTEP_INTERVAL_MS);
    assert_eq!(c.mote_lifetime_ms, DEFAULT_MOTE_LIFETIME_MS);
    assert_eq!(c.mote_cap, DEFAULT_MOTE_CAP);
    assert_eq!(c.tether_lifetime_ms, DEFAULT_TETHER_LIFETIME_MS);
    assert_eq!(c.halo_lifetime_ms, DEFAULT_HALO_LIFETIME_MS);
    assert_eq!(c.error_glyph_ms, DEFAULT_ERROR_GLYPH_MS);
    assert_eq!(c.file_tick_ms, DEFAULT_FILE_TICK_MS);
    assert_eq!(c.file_tick_cap, DEFAULT_FILE_TICK_CAP);
    assert_eq!(c.bench_flash_ms, DEFAULT_BENCH_FLASH_MS);
    assert_eq!(c.pending_ttl_ms, DEFAULT_PENDING_TTL_MS);
    assert_eq!(c.stop_grace_ms, DEFAULT_STOP_GRACE_MS);
    assert_eq!(c.visit_min_ms, DEFAULT_VISIT_MIN_MS);
    assert_eq!(c.visit_max_ms, DEFAULT_VISIT_MAX_MS);
    assert_eq!(c.visit_default_ms, DEFAULT_VISIT_DEFAULT_MS);
    assert_eq!(c.window_w, DEFAULT_WINDOW_W);
    assert_eq!(c.window_h, DEFAULT_WINDOW_H);
    assert_eq!(c.fullscreen, DEFAULT_FULLSCREEN);
    assert_eq!(c.target_fps, DEFAULT_TARGET_FPS);
}

#[test]
fn clamp_snaps_out_of_range() {
    let mut c = Config { mote_cap: 100_000, ..Config::default() };
    c.clamp();
    assert_eq!(c.mote_cap, 500);
    let mut d = Config::default();
    d.clamp();
    assert_eq!(d, Config::default());
}

#[test]
fn clamp_is_idempotent_on_extremes() {
    let mut c = Config {
        bob_cycle_ms: 0,
        footstep_lifetime_ms: u64::MAX,
        target_fps: 0,
        ..Config::default()
    };
    c.clamp();
    let once = c;
    c.clamp();
    assert_eq!(c, once);
    assert_eq!(c.bob_cycle_ms, 300);
    assert_eq!(c.footstep_lifetime_ms, 10_000);
}

#[test]
fn load_missing_file_returns_defaults() {
    let (cfg, source) = settle(LoadOutcome::Missing);
    assert_eq!(cfg, Config::default());
    assert_eq!(source, ConfigSource::MissingUsedDefaults);
}

#[test]
fn corrupt_file_returns_defaults_and_tag() {
    let (cfg, source) = settle(LoadOutcome::Unparsable);
    assert_eq!(cfg, Config::default());
    assert_eq!(source, ConfigSource::CorruptUsedDefaults);
    let (cfg, source) = settle(LoadOutcome::Unreadable);
    assert_eq!(cfg, Config::default());
    assert_eq!(source, ConfigSource::CorruptUsedDefaults);
}

#[test]
fn load_clamps_out_of_range_values_from_disk() {
    let parsed = Config { mote_cap: 100_000, ..Config::default() };
    let (cfg, source) = settle(LoadOutcome::Parsed(parsed));
    assert_eq!(source, ConfigSource::Loaded);
    assert_eq!(cfg.mote_cap, 500);
}

#[test]
fn bounds_match_what_clamp_enforces() {
    let b = Config::bounds();
    assert_eq!(b.mote_cap, Bounds::Usize { min: 0, max: 500, default: DEFAULT_MOTE_CAP, restart_required: false });
    assert_eq!(b.window_w, Bounds::U32 { min: 320, max: 7_680, default: DEFAULT_WINDOW_W, restart_required: true });
    assert!(b.fullscreen.restart_required);
    assert_eq!(b.fullscreen.default, DEFAULT_FULLSCREEN);
    let mut c = Config::default();
    c.target_fps = 1_000;
    c.bob_cycle_ms = 1;
    c.clamp();
    assert_eq!(Bounds::u32(5, 120, DEFAULT_TARGET_FPS, false), b.target_fps);
    assert_eq!(c.target_fps, 120);
    assert_eq!(c.bob_cycle_ms, 300);
}
