//! The decisions of the render loop between frames: which window the
//! configuration asks for, how long a frame may take, and when the idle
//! status readout shows.

use vstd::prelude::*;
use crate::config::{Config, DEFAULT_WINDOW_H, DEFAULT_WINDOW_W};

verus! {

/// The window parameters that force a rebuild when they change.
#[derive(Clone, Copy, Debug, PartialEq, Eq, Structural)]
pub struct DisplaySnapshot {
    pub w: u32,
    pub h: u32,
    pub fullscreen: bool,
}

/// The window a configuration asks for; a zero dimension falls back to its
/// default.
pub open spec fn display_of(c: Config) -> DisplaySnapshot {
    DisplaySnapshot {
        w: if c.window_w == 0 { DEFAULT_WINDOW_W } else { c.window_w },
        h: if c.window_h == 0 { DEFAULT_WINDOW_H } else { c.window_h },
        fullscreen: c.fullscreen,
    }
}

impl DisplaySnapshot {
    /// The window a configuration asks for (see `display_of`).
    pub fn from_config(c: &Config) -> (r: Self)
        ensures
            r == display_of(*c),
    {
        let w = if c.window_w == 0 { DEFAULT_WINDOW_W } else { c.window_w };
        let h = if c.window_h == 0 { DEFAULT_WINDOW_H } else { c.window_h };
        DisplaySnapshot { w, h, fullscreen: c.fullscreen }
    }

    /// The window to fall back to when the asked one cannot be opened.
    pub fn fallback() -> (r: Self)
        ensures
            r == (DisplaySnapshot { w: DEFAULT_WINDOW_W, h: DEFAULT_WINDOW_H, fullscreen: false }),
    {
        DisplaySnapshot { w: DEFAULT_WINDOW_W, h: DEFAULT_WINDOW_H, fullscreen: false }
    }
}

/// Whether the window must be rebuilt for `desired`.
pub fn needs_rebuild(active: DisplaySnapshot, desired: DisplaySnapshot) -> (r: bool)
    ensures
        r == (active != desired),
{
    !(active.w == desired.w && active.h == desired.h && active.fullscreen == desired.fullscreen)
}

/// Milliseconds one frame may take at `target_fps` (at least one frame a
/// second).
pub fn frame_budget_ms(target_fps: u32) -> (r: u64)
    ensures
        r == 1000int / (if target_fps == 0 { 1int } else { target_fps as int }),
{
    let fps: u64 = if target_fps == 0 { 1 } else { target_fps as u64 };
    1000 / fps
}

/// When the office fell idle: kept while nobody is active (set to `now` when
/// it just fell idle), cleared as soon as someone is.
pub open spec fn idle_since_after(idle_since: Option<u64>, active: nat, now_ms: u64) -> Option<u64> {
    if active > 0 {
        None
    } else {
        match idle_since {
            Some(t) => Some(t),
            None => Some(now_ms),
        }
    }
}

/// Updates the idle mark (see `idle_since_after`).
pub fn track_idle(idle_since: Option<u64>, active: usize, now_ms: u64) -> (r: Option<u64>)
    ensures
        r == idle_since_after(idle_since, active as nat, now_ms),
{
    if active > 0 {
        None
    } else {
        match idle_since {
            Some(t) => Some(t),
            None => Some(now_ms),
        }
    }
}

/// How long the office must stay idle before the status readout shows.
pub const IDLE_READOUT_MS: u64 = 2_000;

/// The status readout shows once the office has been idle for more than
/// two seconds.
pub fn readout_due(now_ms: u64, idle_since: Option<u64>) -> (r: bool)
    ensures
        r == match idle_since {
            Some(t) => now_ms - t > IDLE_READOUT_MS,
            None => false,
        },
{
    match idle_since {
        None => false,
        Some(t) => now_ms.saturating_sub(t) > IDLE_READOUT_MS,
    }
}

} // verus!
