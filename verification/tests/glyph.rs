use workplacesim::config::DEFAULT_ERROR_GLYPH_MS;
use workplacesim::render::fx::{FxStore, Halo};
use workplacesim::render::glyph::{sim_glyph, GlyphKind, LONG_SEATED_MS};
use workplacesim::render::sim_store::SimState;
use workplacesim::state::{Agent, CurrentError, Visit};

const ERROR_GLYPH_MS: u64 = DEFAULT_ERROR_GLYPH_MS;

type Fx = FxStore<(f32, f32)>;

fn agent_with(mut a: Agent) -> Agent {
    a.agent_id = "a1".into();
    a
}

fn glyph(state: SimState, mode: &str, seated_since: Option<u64>, a: Option<&Agent>, fx: &Fx, now: u64) -> Option<GlyphKind> {
    sim_glyph("a1", state, mode, seated_since, a, fx, now, ERROR_GLYPH_MS)
}

#[test]
fn error_beats_all() {
    let mut fx = Fx::new();
    fx.halos.push(Halo { agent_id: "a1".into(), born_ms: 0 });
    let a = agent_with(Agent {
        visit: Some(Visit { room: "test".into(), until: 9_999 }),
        idle: Some(true),
        ..Default::default()
    });
    assert_eq!(glyph(SimState::Seated, "plan", Some(0), Some(&a), &fx, 500), Some(GlyphKind::Error));
}

#[test]
fn error_via_current_error_timestamp() {
    let fx = Fx::new();
    let a = agent_with(Agent {
        current_error: Some(CurrentError { tool_name: "Bash".into(), message: "boom".into(), ts: 1_000 }),
        ..Default::default()
    });
    assert_eq!(glyph(SimState::Seated, "default", Some(0), Some(&a), &fx, 1_500), Some(GlyphKind::Error));
    assert_ne!(glyph(SimState::Seated, "default", Some(0), Some(&a), &fx, 5_000), Some(GlyphKind::Error));
}

#[test]
fn visiting_beats_idle() {
    let fx = Fx::new();
    let a = agent_with(Agent {
        visit: Some(Visit { room: "test".into(), until: 9_999 }),
        idle: Some(true),
        ..Default::default()
    });
    assert_eq!(glyph(SimState::Seated, "default", Some(0), Some(&a), &fx, 500), Some(GlyphKind::VisitingLab));
}

#[test]
fn idle_beats_walking_for_seated_sim() {
    let fx = Fx::new();
    let a = agent_with(Agent { idle: Some(true), ..Default::default() });
    assert_eq!(glyph(SimState::Seated, "default", Some(0), Some(&a), &fx, 500), Some(GlyphKind::Idle));
}

#[test]
fn walking_state_beats_plan() {
    let fx = Fx::new();
    let a = agent_with(Agent::default());
    assert_eq!(glyph(SimState::WalkingIn, "plan", None, Some(&a), &fx, 500), Some(GlyphKind::Walking));
}

#[test]
fn plan_beats_long_seated() {
    let fx = Fx::new();
    let a = agent_with(Agent::default());
    assert_eq!(
        glyph(SimState::Seated, "plan", Some(0), Some(&a), &fx, LONG_SEATED_MS + 10),
        Some(GlyphKind::Plan)
    );
}

#[test]
fn long_seated_only_when_threshold_met() {
    let fx = Fx::new();
    let a = agent_with(Agent::default());
    assert_eq!(glyph(SimState::Seated, "default", Some(0), Some(&a), &fx, LONG_SEATED_MS - 1), None);
    assert_eq!(
        glyph(SimState::Seated, "default", Some(0), Some(&a), &fx, LONG_SEATED_MS),
        Some(GlyphKind::LongSeated)
    );
}

#[test]
fn no_glyph_for_freshly_seated_default_mode() {
    let fx = Fx::new();
    let a = agent_with(Agent::default());
    assert_eq!(glyph(SimState::Seated, "default", Some(0), Some(&a), &fx, 100), None);
}

#[test]
fn stale_halo_and_missing_agent() {
    let mut fx = Fx::new();
    fx.halos.push(Halo { agent_id: "a1".into(), born_ms: 0 });
    assert_eq!(glyph(SimState::Gone, "default", None, None, &fx, ERROR_GLYPH_MS), None);
    assert_eq!(glyph(SimState::WalkingOut, "default", None, None, &fx, ERROR_GLYPH_MS), Some(GlyphKind::Walking));
    // Only the first halo of the agent counts.
    fx.halos.push(Halo { agent_id: "a1".into(), born_ms: ERROR_GLYPH_MS });
    assert_eq!(glyph(SimState::Gone, "default", None, None, &fx, ERROR_GLYPH_MS + 1), None);
}
