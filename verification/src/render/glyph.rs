//! The glyph shown above a sprite's head. First hit of the ladder wins:
//! a fresh error, a lab visit, idling while seated, walking, plan mode while
//! seated, then sitting for a long time.

use vstd::prelude::*;
use crate::render::fx::{FxStore, Halo, age};
use crate::render::sim_store::SimState;
use crate::state::agent::Agent;
use crate::text::str_eq;

verus! {

/// How long a sprite sits before it shows the long-seated glyph.
pub const LONG_SEATED_MS: u64 = 60_000;

/// The glyphs a sprite can show.
#[derive(Clone, Copy, Debug, PartialEq, Eq, Structural)]
pub enum GlyphKind {
    Error,
    VisitingLab,
    Idle,
    Walking,
    Plan,
    LongSeated,
}

/// The first halo of an agent, if any.
pub open spec fn first_halo(s: Seq<Halo>, id: Seq<char>) -> Option<Halo>
    decreases s.len(),
{
    if s.len() == 0 {
        None
    } else if s[0].agent_id@ == id {
        Some(s[0])
    } else {
        first_halo(s.drop_first(), id)
    }
}

/// Whether the agent's first halo is younger than `error_glyph_ms`.
fn halo_is_fresh(halos: &Vec<Halo>, agent_id: &str, now_ms: u64, error_glyph_ms: u64) -> (r: bool)
    ensures
        r == match first_halo(halos@, agent_id@) {
            Some(h) => age(now_ms, h.born_ms) < error_glyph_ms,
            None => false,
        },
{
    let mut i: usize = 0;
    assert(halos@.skip(0) =~= halos@);
    while i < halos.len()
        invariant
            i <= halos@.len(),
            first_halo(halos@, agent_id@) == first_halo(halos@.skip(i as int), agent_id@),
        decreases halos@.len() - i,
    {
        proof {
            assert(halos@.skip(i as int).drop_first() =~= halos@.skip(i + 1));
        }
        if str_eq(halos[i].agent_id.as_str(), agent_id) {
            return now_ms.saturating_sub(halos[i].born_ms) < error_glyph_ms;
        }
        i = i + 1;
    }
    false
}

/// The glyph of a sprite: `agent_id`, `state`, `permission_mode` and
/// `seated_since_ms` are the sprite's, `agent` its record when there is one,
/// `halos` the error halos on screen.
pub open spec fn glyph_of(
    agent_id: Seq<char>,
    state: SimState,
    permission_mode: Seq<char>,
    seated_since_ms: Option<u64>,
    agent: Option<Agent>,
    halos: Seq<Halo>,
    now_ms: u64,
    error_glyph_ms: u64,
) -> Option<GlyphKind> {
    let fresh_halo = match first_halo(halos, agent_id) {
        Some(h) => age(now_ms, h.born_ms) < error_glyph_ms,
        None => false,
    };
    let fresh_error = match agent {
        Some(a) => match a.current_error {
            Some(ce) => age(now_ms, ce.ts) < error_glyph_ms,
            None => false,
        },
        None => false,
    };
    let visiting_lab = match agent {
        Some(a) => match a.visit {
            Some(v) => v.room@ == "test"@,
            None => false,
        },
        None => false,
    };
    let idle_seated = match agent {
        Some(a) => a.idle == Some(true) && state == SimState::Seated,
        None => false,
    };
    if fresh_halo || fresh_error {
        Some(GlyphKind::Error)
    } else if visiting_lab {
        Some(GlyphKind::VisitingLab)
    } else if idle_seated {
        Some(GlyphKind::Idle)
    } else if state == SimState::WalkingIn || state == SimState::WalkingOut {
        Some(GlyphKind::Walking)
    } else if state == SimState::Seated && permission_mode == "plan"@ {
        Some(GlyphKind::Plan)
    } else if state == SimState::Seated && seated_since_ms is Some && age(
        now_ms,
        seated_since_ms.unwrap(),
    ) >= LONG_SEATED_MS {
        Some(GlyphKind::LongSeated)
    } else {
        None
    }
}

/// Picks the glyph of a sprite (see `glyph_of`).
pub fn sim_glyph<P>(
    agent_id: &str,
    state: SimState,
    permission_mode: &str,
    seated_since_ms: Option<u64>,
    agent: Option<&Agent>,
    fx: &FxStore<P>,
    now_ms: u64,
    error_glyph_ms: u64,
) -> (g: Option<GlyphKind>)
    ensures
        g == glyph_of(
            agent_id@,
            state,
            permission_mode@,
            seated_since_ms,
            match agent {
                Some(a) => Some(*a),
                None => None,
            },
            fx.halos@,
            now_ms,
            error_glyph_ms,
        ),
{
    if halo_is_fresh(&fx.halos, agent_id, now_ms, error_glyph_ms) {
        return Some(GlyphKind::Error);
    }
    match agent {
        Some(a) => {
            match &a.current_error {
                Some(ce) => {
                    if now_ms.saturating_sub(ce.ts) < error_glyph_ms {
                        return Some(GlyphKind::Error);
                    }
                },
                None => {},
            }
            match &a.visit {
                Some(v) => {
                    if str_eq(v.room.as_str(), "test") {
                        return Some(GlyphKind::VisitingLab);
                    }
                },
                None => {},
            }
            let seated = state == SimState::Seated;
            if a.idle == Some(true) && seated {
                return Some(GlyphKind::Idle);
            }
        },
        None => {},
    }
    if state == SimState::WalkingIn || state == SimState::WalkingOut {
        return Some(GlyphKind::Walking);
    }
    if state == SimState::Seated && str_eq(permission_mode, "plan") {
        return Some(GlyphKind::Plan);
    }
    match seated_since_ms {
        Some(since) => {
            if state == SimState::Seated && now_ms.saturating_sub(since) >= LONG_SEATED_MS {
                return Some(GlyphKind::LongSeated);
            }
        },
        None => {},
    }
    None
}

} // verus!
