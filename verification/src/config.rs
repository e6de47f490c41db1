//! Runtime-tunable configuration. Every integer and boolean knob lives
//! here; the two fractional knobs (walk speed and window-spill alpha) are
//! carried by the application's serialisable copy of the record.

use vstd::prelude::*;

verus! {

// --- Motion ---
pub const DEFAULT_MIN_SEGMENT_MS: u64 = 180;
pub const DEFAULT_BOB_CYCLE_MS: u64 = 1800;

// --- Effects ---
pub const DEFAULT_FOOTSTEP_LIFETIME_MS: u64 = 900;
pub const DEFAULT_FOOTSTEP_INTERVAL_MS: u64 = 120;
pub const DEFAULT_MOTE_LIFETIME_MS: u64 = 1200;
pub const DEFAULT_MOTE_CAP: usize = 40;
pub const DEFAULT_TETHER_LIFETIME_MS: u64 = 2000;
pub const DEFAULT_HALO_LIFETIME_MS: u64 = 2000;
pub const DEFAULT_ERROR_GLYPH_MS: u64 = 2000;

// --- Ticker ---
pub const DEFAULT_FILE_TICK_MS: u64 = 12_000;
pub const DEFAULT_FILE_TICK_CAP: usize = 3;
pub const DEFAULT_BENCH_FLASH_MS: u64 = 800;

// --- TTLs ---
pub const DEFAULT_PENDING_TTL_MS: u64 = 60_000;
pub const DEFAULT_STOP_GRACE_MS: u64 = 10_000;
pub const DEFAULT_VISIT_MIN_MS: u64 = 1_000;
pub const DEFAULT_VISIT_MAX_MS: u64 = 120_000;
pub const DEFAULT_VISIT_DEFAULT_MS: u64 = 20_000;

// --- Display ---
pub const DEFAULT_WINDOW_W: u32 = 1280;
pub const DEFAULT_WINDOW_H: u32 = 720;
pub const DEFAULT_FULLSCREEN: bool = false;
pub const DEFAULT_TARGET_FPS: u32 = 30;

/// The integer and boolean knobs of the runtime configuration.
#[derive(Clone, Copy, Debug, PartialEq, Eq)]
pub struct Config {
    pub min_segment_ms: u64,
    pub bob_cycle_ms: u64,
    pub footstep_lifetime_ms: u64,
    pub footstep_interval_ms: u64,
    pub mote_lifetime_ms: u64,
    pub mote_cap: usize,
    pub tether_lifetime_ms: u64,
    pub halo_lifetime_ms: u64,
    pub error_glyph_ms: u64,
    pub file_tick_ms: u64,
    pub file_tick_cap: usize,
    pub bench_flash_ms: u64,
    pub pending_ttl_ms: u64,
    pub stop_grace_ms: u64,
    pub visit_min_ms: u64,
    pub visit_max_ms: u64,
    pub visit_default_ms: u64,
    pub window_w: u32,
    pub window_h: u32,
    pub fullscreen: bool,
    pub target_fps: u32,
}

/// The configuration with every knob at its default.
pub open spec fn default_config() -> Config {
    Config {
        min_segment_ms: DEFAULT_MIN_SEGMENT_MS,
        bob_cycle_ms: DEFAULT_BOB_CYCLE_MS,
        footstep_lifetime_ms: DEFAULT_FOOTSTEP_LIFETIME_MS,
        footstep_interval_ms: DEFAULT_FOOTSTEP_INTERVAL_MS,
        mote_lifetime_ms: DEFAULT_MOTE_LIFETIME_MS,
        mote_cap: DEFAULT_MOTE_CAP,
        tether_lifetime_ms: DEFAULT_TETHER_LIFETIME_MS,
        halo_lifetime_ms: DEFAULT_HALO_LIFETIME_MS,
        error_glyph_ms: DEFAULT_ERROR_GLYPH_MS,
        file_tick_ms: DEFAULT_FILE_TICK_MS,
        file_tick_cap: DEFAULT_FILE_TICK_CAP,
        bench_flash_ms: DEFAULT_BENCH_FLASH_MS,
        pending_ttl_ms: DEFAULT_PENDING_TTL_MS,
        stop_grace_ms: DEFAULT_STOP_GRACE_MS,
        visit_min_ms: DEFAULT_VISIT_MIN_MS,
        visit_max_ms: DEFAULT_VISIT_MAX_MS,
        visit_default_ms: DEFAULT_VISIT_DEFAULT_MS,
        window_w: DEFAULT_WINDOW_W,
        window_h: DEFAULT_WINDOW_H,
        fullscreen: DEFAULT_FULLSCREEN,
        target_fps: DEFAULT_TARGET_FPS,
    }
}

/// `v` snapped into `[lo, hi]` (for `lo <= hi`).
pub open spec fn clamp_spec(v: int, lo: int, hi: int) -> int {
    if v < lo {
        lo
    } else if v > hi {
        hi
    } else {
        v
    }
}

fn clamp_u64(v: u64, lo: u64, hi: u64) -> (r: u64)
    requires
        lo <= hi,
    ensures
        r == clamp_spec(v as int, lo as int, hi as int),
{
    if v < lo {
        lo
    } else if v > hi {
        hi
    } else {
        v
    }
}

fn clamp_u32(v: u32, lo: u32, hi: u32) -> (r: u32)
    requires
        lo <= hi,
    ensures
        r == clamp_spec(v as int, lo as int, hi as int),
{
    if v < lo {
        lo
    } else if v > hi {
        hi
    } else {
        v
    }
}

/// Every knob of `c` snapped into its safe range.
pub open spec fn clamped(c: Config) -> Config {
    Config {
        min_segment_ms: clamp_spec(c.min_segment_ms as int, 0, 2_000) as u64,
        bob_cycle_ms: clamp_spec(c.bob_cycle_ms as int, 300, 10_000) as u64,
        footstep_lifetime_ms: clamp_spec(c.footstep_lifetime_ms as int, 100, 10_000) as u64,
        footstep_interval_ms: clamp_spec(c.footstep_interval_ms as int, 30, 2_000) as u64,
        mote_lifetime_ms: clamp_spec(c.mote_lifetime_ms as int, 100, 10_000) as u64,
        mote_cap: clamp_spec(c.mote_cap as int, 0, 500) as usize,
        tether_lifetime_ms: clamp_spec(c.tether_lifetime_ms as int, 100, 20_000) as u64,
        halo_lifetime_ms: clamp_spec(c.halo_lifetime_ms as int, 100, 10_000) as u64,
        error_glyph_ms: clamp_spec(c.error_glyph_ms as int, 100, 10_000) as u64,
        file_tick_ms: clamp_spec(c.file_tick_ms as int, 1_000, 120_000) as u64,
        file_tick_cap: clamp_spec(c.file_tick_cap as int, 0, 20) as usize,
        bench_flash_ms: clamp_spec(c.bench_flash_ms as int, 50, 5_000) as u64,
        pending_ttl_ms: clamp_spec(c.pending_ttl_ms as int, 1_000, 600_000) as u64,
        stop_grace_ms: clamp_spec(c.stop_grace_ms as int, 0, 120_000) as u64,
        visit_min_ms: clamp_spec(c.visit_min_ms as int, 100, 60_000) as u64,
        visit_max_ms: clamp_spec(c.visit_max_ms as int, 1_000, 600_000) as u64,
        visit_default_ms: clamp_spec(c.visit_default_ms as int, 1_000, 300_000) as u64,
        window_w: clamp_spec(c.window_w as int, 320, 7_680) as u32,
        window_h: clamp_spec(c.window_h as int, 180, 4_320) as u32,
        fullscreen: c.fullscreen,
        target_fps: clamp_spec(c.target_fps as int, 5, 120) as u32,
    }
}

impl Config {
    /// Snap every field into its safe range. Called after load and after
    /// every incoming update, so hand-edited values still render.
    pub fn clamp(&mut self)
        ensures
            *final(self) == clamped(*old(self)),
    {
        self.min_segment_ms = clamp_u64(self.min_segment_ms, 0, 2_000);
        self.bob_cycle_ms = clamp_u64(self.bob_cycle_ms, 300, 10_000);
        self.footstep_lifetime_ms = clamp_u64(self.footstep_lifetime_ms, 100, 10_000);
        self.footstep_interval_ms = clamp_u64(self.footstep_interval_ms, 30, 2_000);
        self.mote_lifetime_ms = clamp_u64(self.mote_lifetime_ms, 100, 10_000);
        self.mote_cap = if self.mote_cap > 500 { 500 } else { self.mote_cap };
        self.tether_lifetime_ms = clamp_u64(self.tether_lifetime_ms, 100, 20_000);
        self.halo_lifetime_ms = clamp_u64(self.halo_lifetime_ms, 100, 10_000);
        self.error_glyph_ms = clamp_u64(self.error_glyph_ms, 100, 10_000);
        self.file_tick_ms = clamp_u64(self.file_tick_ms, 1_000, 120_000);
        self.file_tick_cap = if self.file_tick_cap > 20 { 20 } else { self.file_tick_cap };
        self.bench_flash_ms = clamp_u64(self.bench_flash_ms, 50, 5_000);
        self.pending_ttl_ms = clamp_u64(self.pending_ttl_ms, 1_000, 600_000);
        self.stop_grace_ms = clamp_u64(self.stop_grace_ms, 0, 120_000);
        self.visit_min_ms = clamp_u64(self.visit_min_ms, 100, 60_000);
        self.visit_max_ms = clamp_u64(self.visit_max_ms, 1_000, 600_000);
        self.visit_default_ms = clamp_u64(self.visit_default_ms, 1_000, 300_000);
        self.window_w = clamp_u32(self.window_w, 320, 7_680);
        self.window_h = clamp_u32(self.window_h, 180, 4_320);
        self.target_fps = clamp_u32(self.target_fps, 5, 120);
    }

    /// Whether every knob already lies in its safe range.
    pub open spec fn in_bounds(&self) -> bool {
        clamped(*self) == *self
    }
}

impl Default for Config {
    fn default() -> (r: Config)
        ensures
            r == default_config(),
    {
        Config {
            min_segment_ms: DEFAULT_MIN_SEGMENT_MS,
            bob_cycle_ms: DEFAULT_BOB_CYCLE_MS,
            footstep_lifetime_ms: DEFAULT_FOOTSTEP_LIFETIME_MS,
            footstep_interval_ms: DEFAULT_FOOTSTEP_INTERVAL_MS,
            mote_lifetime_ms: DEFAULT_MOTE_LIFETIME_MS,
            mote_cap: DEFAULT_MOTE_CAP,
            tether_lifetime_ms: DEFAULT_TETHER_LIFETIME_MS,
            halo_lifetime_ms: DEFAULT_HALO_LIFETIME_MS,
            error_glyph_ms: DEFAULT_ERROR_GLYPH_MS,
            file_tick_ms: DEFAULT_FILE_TICK_MS,
            file_tick_cap: DEFAULT_FILE_TICK_CAP,
            bench_flash_ms: DEFAULT_BENCH_FLASH_MS,
            pending_ttl_ms: DEFAULT_PENDING_TTL_MS,
            stop_grace_ms: DEFAULT_STOP_GRACE_MS,
            visit_min_ms: DEFAULT_VISIT_MIN_MS,
            visit_max_ms: DEFAULT_VISIT_MAX_MS,
            visit_default_ms: DEFAULT_VISIT_DEFAULT_MS,
            window_w: DEFAULT_WINDOW_W,
            window_h: DEFAULT_WINDOW_H,
            fullscreen: DEFAULT_FULLSCREEN,
            target_fps: DEFAULT_TARGET_FPS,
        }
    }
}

/// Clamping is idempotent: a clamped configuration is in bounds, and the
/// default configuration is already in bounds.
pub proof fn law_clamp_idempotent(c: Config)
    ensures
        clamped(clamped(c)) == clamped(c),
        default_config().in_bounds(),
{
}

/// Boolean knobs have no range, just a default.
#[derive(Clone, Copy, Debug, PartialEq, Eq, Structural)]
pub struct BoundsBool {
    pub default: bool,
    pub restart_required: bool,
}

/// The range and default of a numeric knob, in the knob's own integer type,
/// and whether a new value only takes effect after a restart.
#[derive(Clone, Copy, Debug, PartialEq, Eq, Structural)]
pub enum Bounds {
    U32 { min: u32, max: u32, default: u32, restart_required: bool },
    U64 { min: u64, max: u64, default: u64, restart_required: bool },
    Usize { min: usize, max: usize, default: usize, restart_required: bool },
}

impl Bounds {
    /// Bounds of a `u32` knob.
    pub fn u32(min: u32, max: u32, default: u32, restart_required: bool) -> (r: Self)
        ensures
            r == (Bounds::U32 { min, max, default, restart_required }),
    {
        Bounds::U32 { min, max, default, restart_required }
    }

    /// Bounds of a `u64` knob.
    pub fn u64(min: u64, max: u64, default: u64, restart_required: bool) -> (r: Self)
        ensures
            r == (Bounds::U64 { min, max, default, restart_required }),
    {
        Bounds::U64 { min, max, default, restart_required }
    }

    /// Bounds of a `usize` knob.
    pub fn usize(min: usize, max: usize, default: usize, restart_required: bool) -> (r: Self)
        ensures
            r == (Bounds::Usize { min, max, default, restart_required }),
    {
        Bounds::Usize { min, max, default, restart_required }
    }
}

/// The lowest value of a knob.
pub open spec fn lo(b: Bounds) -> int {
    match b {
        Bounds::U32 { min, .. } => min as int,
        Bounds::U64 { min, .. } => min as int,
        Bounds::Usize { min, .. } => min as int,
    }
}

/// The highest value of a knob.
pub open spec fn hi(b: Bounds) -> int {
    match b {
        Bounds::U32 { max, .. } => max as int,
        Bounds::U64 { max, .. } => max as int,
        Bounds::Usize { max, .. } => max as int,
    }
}

/// The default of a knob.
pub open spec fn dflt(b: Bounds) -> int {
    match b {
        Bounds::U32 { default, .. } => default as int,
        Bounds::U64 { default, .. } => default as int,
        Bounds::Usize { default, .. } => default as int,
    }
}

/// The range and default of every numeric knob, and the default of the
/// boolean one.
#[derive(Clone, Copy, Debug, PartialEq, Eq, Structural)]
pub struct ConfigBounds {
    pub min_segment_ms: Bounds,
    pub bob_cycle_ms: Bounds,
    pub footstep_lifetime_ms: Bounds,
    pub footstep_interval_ms: Bounds,
    pub mote_lifetime_ms: Bounds,
    pub mote_cap: Bounds,
    pub tether_lifetime_ms: Bounds,
    pub halo_lifetime_ms: Bounds,
    pub error_glyph_ms: Bounds,
    pub file_tick_ms: Bounds,
    pub file_tick_cap: Bounds,
    pub bench_flash_ms: Bounds,
    pub pending_ttl_ms: Bounds,
    pub stop_grace_ms: Bounds,
    pub visit_min_ms: Bounds,
    pub visit_max_ms: Bounds,
    pub visit_default_ms: Bounds,
    pub window_w: Bounds,
    pub window_h: Bounds,
    pub fullscreen: BoundsBool,
    pub target_fps: Bounds,
}

/// The bounds of every knob: display knobs need a restart, every other one
/// applies live.
pub open spec fn config_bounds() -> ConfigBounds {
    ConfigBounds {
        min_segment_ms: Bounds::U64 { min: 0, max: 2_000, default: DEFAULT_MIN_SEGMENT_MS, restart_required: false },
        bob_cycle_ms: Bounds::U64 { min: 300, max: 10_000, default: DEFAULT_BOB_CYCLE_MS, restart_required: false },
        footstep_lifetime_ms: Bounds::U64 { min: 100, max: 10_000, default: DEFAULT_FOOTSTEP_LIFETIME_MS, restart_required: false },
        footstep_interval_ms: Bounds::U64 { min: 30, max: 2_000, default: DEFAULT_FOOTSTEP_INTERVAL_MS, restart_required: false },
        mote_lifetime_ms: Bounds::U64 { min: 100, max: 10_000, default: DEFAULT_MOTE_LIFETIME_MS, restart_required: false },
        mote_cap: Bounds::Usize { min: 0, max: 500, default: DEFAULT_MOTE_CAP, restart_required: false },
        tether_lifetime_ms: Bounds::U64 { min: 100, max: 20_000, default: DEFAULT_TETHER_LIFETIME_MS, restart_required: false },
        halo_lifetime_ms: Bounds::U64 { min: 100, max: 10_000, default: DEFAULT_HALO_LIFETIME_MS, restart_required: false },
        error_glyph_ms: Bounds::U64 { min: 100, max: 10_000, default: DEFAULT_ERROR_GLYPH_MS, restart_required: false },
        file_tick_ms: Bounds::U64 { min: 1_000, max: 120_000, default: DEFAULT_FILE_TICK_MS, restart_required: false },
        file_tick_cap: Bounds::Usize { min: 0, max: 20, default: DEFAULT_FILE_TICK_CAP, restart_required: false },
        bench_flash_ms: Bounds::U64 { min: 50, max: 5_000, default: DEFAULT_BENCH_FLASH_MS, restart_required: false },
        pending_ttl_ms: Bounds::U64 { min: 1_000, max: 600_000, default: DEFAULT_PENDING_TTL_MS, restart_required: false },
        stop_grace_ms: Bounds::U64 { min: 0, max: 120_000, default: DEFAULT_STOP_GRACE_MS, restart_required: false },
        visit_min_ms: Bounds::U64 { min: 100, max: 60_000, default: DEFAULT_VISIT_MIN_MS, restart_required: false },
        visit_max_ms: Bounds::U64 { min: 1_000, max: 600_000, default: DEFAULT_VISIT_MAX_MS, restart_required: false },
        visit_default_ms: Bounds::U64 { min: 1_000, max: 300_000, default: DEFAULT_VISIT_DEFAULT_MS, restart_required: false },
        window_w: Bounds::U32 { min: 320, max: 7_680, default: DEFAULT_WINDOW_W, restart_required: true },
        window_h: Bounds::U32 { min: 180, max: 4_320, default: DEFAULT_WINDOW_H, restart_required: true },
        fullscreen: BoundsBool { default: DEFAULT_FULLSCREEN, restart_required: true },
        target_fps: Bounds::U32 { min: 5, max: 120, default: DEFAULT_TARGET_FPS, restart_required: false },
    }
}

impl Config {
    /// The bounds of every knob (see `config_bounds`).
    pub fn bounds() -> (b: ConfigBounds)
        ensures
            b == config_bounds(),
    {
        ConfigBounds {
            min_segment_ms: Bounds::u64(0, 2_000, DEFAULT_MIN_SEGMENT_MS, false),
            bob_cycle_ms: Bounds::u64(300, 10_000, DEFAULT_BOB_CYCLE_MS, false),
            footstep_lifetime_ms: Bounds::u64(100, 10_000, DEFAULT_FOOTSTEP_LIFETIME_MS, false),
            footstep_interval_ms: Bounds::u64(30, 2_000, DEFAULT_FOOTSTEP_INTERVAL_MS, false),
            mote_lifetime_ms: Bounds::u64(100, 10_000, DEFAULT_MOTE_LIFETIME_MS, false),
            mote_cap: Bounds::usize(0, 500, DEFAULT_MOTE_CAP, false),
            tether_lifetime_ms: Bounds::u64(100, 20_000, DEFAULT_TETHER_LIFETIME_MS, false),
            halo_lifetime_ms: Bounds::u64(100, 10_000, DEFAULT_HALO_LIFETIME_MS, false),
            error_glyph_ms: Bounds::u64(100, 10_000, DEFAULT_ERROR_GLYPH_MS, false),
            file_tick_ms: Bounds::u64(1_000, 120_000, DEFAULT_FILE_TICK_MS, false),
            file_tick_cap: Bounds::usize(0, 20, DEFAULT_FILE_TICK_CAP, false),
            bench_flash_ms: Bounds::u64(50, 5_000, DEFAULT_BENCH_FLASH_MS, false),
            pending_ttl_ms: Bounds::u64(1_000, 600_000, DEFAULT_PENDING_TTL_MS, false),
            stop_grace_ms: Bounds::u64(0, 120_000, DEFAULT_STOP_GRACE_MS, false),
            visit_min_ms: Bounds::u64(100, 60_000, DEFAULT_VISIT_MIN_MS, false),
            visit_max_ms: Bounds::u64(1_000, 600_000, DEFAULT_VISIT_MAX_MS, false),
            visit_default_ms: Bounds::u64(1_000, 300_000, DEFAULT_VISIT_DEFAULT_MS, false),
            window_w: Bounds::u32(320, 7_680, DEFAULT_WINDOW_W, true),
            window_h: Bounds::u32(180, 4_320, DEFAULT_WINDOW_H, true),
            fullscreen: BoundsBool { default: DEFAULT_FULLSCREEN, restart_required: true },
            target_fps: Bounds::u32(5, 120, DEFAULT_TARGET_FPS, false),
        }
    }
}

/// The bounds the settings page is told are the ones `clamp` enforces, and
/// their defaults are the defaults of the configuration: each knob of a
/// clamped configuration is its value snapped into the knob's bounds.
pub proof fn law_bounds_are_enforced(c: Config)
    ensures
        ({
            let b = config_bounds();
            let k = clamped(c);
            let d = default_config();
            &&& k.min_segment_ms == clamp_spec(c.min_segment_ms as int, lo(b.min_segment_ms), hi(b.min_segment_ms))
            &&& k.bob_cycle_ms == clamp_spec(c.bob_cycle_ms as int, lo(b.bob_cycle_ms), hi(b.bob_cycle_ms))
            &&& k.footstep_lifetime_ms == clamp_spec(c.footstep_lifetime_ms as int, lo(b.footstep_lifetime_ms), hi(b.footstep_lifetime_ms))
            &&& k.footstep_interval_ms == clamp_spec(c.footstep_interval_ms as int, lo(b.footstep_interval_ms), hi(b.footstep_interval_ms))
            &&& k.mote_lifetime_ms == clamp_spec(c.mote_lifetime_ms as int, lo(b.mote_lifetime_ms), hi(b.mote_lifetime_ms))
            &&& k.mote_cap == clamp_spec(c.mote_cap as int, lo(b.mote_cap), hi(b.mote_cap))
            &&& k.tether_lifetime_ms == clamp_spec(c.tether_lifetime_ms as int, lo(b.tether_lifetime_ms), hi(b.tether_lifetime_ms))
            &&& k.halo_lifetime_ms == clamp_spec(c.halo_lifetime_ms as int, lo(b.halo_lifetime_ms), hi(b.halo_lifetime_ms))
            &&& k.error_glyph_ms == clamp_spec(c.error_glyph_ms as int, lo(b.error_glyph_ms), hi(b.error_glyph_ms))
            &&& k.file_tick_ms == clamp_spec(c.file_tick_ms as int, lo(b.file_tick_ms), hi(b.file_tick_ms))
            &&& k.file_tick_cap == clamp_spec(c.file_tick_cap as int, lo(b.file_tick_cap), hi(b.file_tick_cap))
            &&& k.bench_flash_ms == clamp_spec(c.bench_flash_ms as int, lo(b.bench_flash_ms), hi(b.bench_flash_ms))
            &&& k.pending_ttl_ms == clamp_spec(c.pending_ttl_ms as int, lo(b.pending_ttl_ms), hi(b.pending_ttl_ms))
            &&& k.stop_grace_ms == clamp_spec(c.stop_grace_ms as int, lo(b.stop_grace_ms), hi(b.stop_grace_ms))
            &&& k.visit_min_ms == clamp_spec(c.visit_min_ms as int, lo(b.visit_min_ms), hi(b.visit_min_ms))
            &&& k.visit_max_ms == clamp_spec(c.visit_max_ms as int, lo(b.visit_max_ms), hi(b.visit_max_ms))
            &&& k.visit_default_ms == clamp_spec(c.visit_default_ms as int, lo(b.visit_default_ms), hi(b.visit_default_ms))
            &&& k.window_w == clamp_spec(c.window_w as int, lo(b.window_w), hi(b.window_w))
            &&& k.window_h == clamp_spec(c.window_h as int, lo(b.window_h), hi(b.window_h))
            &&& k.target_fps == clamp_spec(c.target_fps as int, lo(b.target_fps), hi(b.target_fps))
            &&& d.min_segment_ms == dflt(b.min_segment_ms)
            &&& d.bob_cycle_ms == dflt(b.bob_cycle_ms)
            &&& d.footstep_lifetime_ms == dflt(b.footstep_lifetime_ms)
            &&& d.footstep_interval_ms == dflt(b.footstep_interval_ms)
            &&& d.mote_lifetime_ms == dflt(b.mote_lifetime_ms)
            &&& d.mote_cap == dflt(b.mote_cap)
            &&& d.tether_lifetime_ms == dflt(b.tether_lifetime_ms)
            &&& d.halo_lifetime_ms == dflt(b.halo_lifetime_ms)
            &&& d.error_glyph_ms == dflt(b.error_glyph_ms)
            &&& d.file_tick_ms == dflt(b.file_tick_ms)
            &&& d.file_tick_cap == dflt(b.file_tick_cap)
            &&& d.bench_flash_ms == dflt(b.bench_flash_ms)
            &&& d.pending_ttl_ms == dflt(b.pending_ttl_ms)
            &&& d.stop_grace_ms == dflt(b.stop_grace_ms)
            &&& d.visit_min_ms == dflt(b.visit_min_ms)
            &&& d.visit_max_ms == dflt(b.visit_max_ms)
            &&& d.visit_default_ms == dflt(b.visit_default_ms)
            &&& d.window_w == dflt(b.window_w)
            &&& d.window_h == dflt(b.window_h)
            &&& d.fullscreen == b.fullscreen.default
            &&& d.target_fps == dflt(b.target_fps)
        }),
{
}

} // verus!

verus! {

/// Where the configuration of this run came from.
#[derive(Clone, Copy, Debug, PartialEq, Eq, Structural)]
pub enum ConfigSource {
    Loaded,
    MissingUsedDefaults,
    CorruptUsedDefaults,
}

/// What reading and parsing the configuration file gave.
pub enum LoadOutcome {
    /// No file at the path.
    Missing,
    /// The file exists but could not be read.
    Unreadable,
    /// The file parsed into this configuration.
    Parsed(Config),
    /// The file is not a valid configuration.
    Unparsable,
}

/// The configuration a load settles on: a parsed one clamped into bounds, else
/// the defaults, tagged with where it came from.
pub open spec fn settled(o: LoadOutcome) -> (Config, ConfigSource) {
    match o {
        LoadOutcome::Missing => (default_config(), ConfigSource::MissingUsedDefaults),
        LoadOutcome::Unreadable => (default_config(), ConfigSource::CorruptUsedDefaults),
        LoadOutcome::Parsed(c) => (clamped(c), ConfigSource::Loaded),
        LoadOutcome::Unparsable => (default_config(), ConfigSource::CorruptUsedDefaults),
    }
}

/// Settles a load (see `settled`).
pub fn settle(o: LoadOutcome) -> (r: (Config, ConfigSource))
    ensures
        r == settled(o),
{
    match o {
        LoadOutcome::Missing => (Config::default(), ConfigSource::MissingUsedDefaults),
        LoadOutcome::Unreadable => (Config::default(), ConfigSource::CorruptUsedDefaults),
        LoadOutcome::Parsed(c) => {
            let mut c = c;
            c.clamp();
            (c, ConfigSource::Loaded)
        },
        LoadOutcome::Unparsable => (Config::default(), ConfigSource::CorruptUsedDefaults),
    }
}

} // verus!
