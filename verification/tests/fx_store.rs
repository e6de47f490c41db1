use workplacesim::config::{DEFAULT_FILE_TICK_CAP, DEFAULT_FILE_TICK_MS, DEFAULT_MOTE_CAP, DEFAULT_MOTE_LIFETIME_MS};
use workplacesim::config::Config;
use workplacesim::render::fx::{footstep_due, FxLimits, FxStore};
use workplacesim::render::palette::{mote_color, sim_colors};
use workplacesim::render::sim_store::SimState;
use workplacesim::state::{Agent, Event};

type Pos = (f32, f32);
type Fx = FxStore<Pos>;

fn limits() -> FxLimits {
    FxLimits::default()
}

/// One sprite of the scene: id, user, state, position and when it last left
/// a footprint.
struct Sprite {
    id: String,
    user: String,
    state: SimState,
    at: Pos,
    last_footstep_ms: u64,
}

fn sprite(id: &str, state: SimState) -> Sprite {
    Sprite { id: id.into(), user: id.into(), state, at: (100.0, 100.0), last_footstep_ms: 0 }
}

/// The per-frame footstep pass of the render loop, then expiry.
fn tick(fx: &mut Fx, now: u64, sprites: &mut [Sprite], l: &FxLimits) {
    for s in sprites.iter_mut() {
        if footstep_due(s.state, s.last_footstep_ms, now, l.footstep_interval_ms) {
            s.last_footstep_ms = now.max(1);
            fx.drop_footstep(&s.id, &s.user, (s.at.0, s.at.1 + 10.0), now);
        }
    }
    fx.expire(now, l);
}

/// A tool event of an agent: a mote above its sprite when it has one.
fn tool(fx: &mut Fx, sprites: &[Sprite], agent_id: &str, tool_name: &str, now: u64) {
    let at = sprites.iter().find(|s| s.id == agent_id).map(|s| (s.at.0, s.at.1 - 18.0));
    let ev = Event::Tool { agent_id: agent_id.into(), tool_name: tool_name.into(), ts: now };
    fx.ingest(&ev, at, None, false, now, &limits());
}

#[test]
fn fx_store_drain_tool_event_spawns_mote() {
    let sprites = vec![sprite("a1", SimState::Seated)];
    let mut fx = Fx::new();
    tool(&mut fx, &sprites, "a1", "Read", 100);
    assert_eq!(fx.motes.len(), 1);
    let m = &fx.motes[0];
    assert_eq!(m.color, mote_color("Read"));
    assert_eq!(m.at.0, 100.0);
    assert_eq!(m.at.1, 100.0 - 18.0);
    assert_eq!(m.born_ms, 100);
}

#[test]
fn fx_store_drain_tool_event_unknown_agent_drops() {
    let sprites: Vec<Sprite> = Vec::new();
    let mut fx = Fx::new();
    tool(&mut fx, &sprites, "ghost", "Read", 100);
    assert!(fx.motes.is_empty());
}

#[test]
fn fx_store_mote_cap_drops_oldest() {
    let sprites = vec![sprite("a1", SimState::Seated)];
    let mut fx = Fx::new();
    for i in 0..DEFAULT_MOTE_CAP + 1 {
        tool(&mut fx, &sprites, "a1", &format!("T{i}"), i as u64);
    }
    assert_eq!(fx.motes.len(), DEFAULT_MOTE_CAP);
    assert_eq!(fx.motes.front().unwrap().born_ms, 1);
}

#[test]
fn fx_store_drain_handles_lagged_receiver() {
    // Many events in one frame never push the queue past its cap.
    let sprites = vec![sprite("a1", SimState::Seated)];
    let mut fx = Fx::new();
    for i in 0..6 * DEFAULT_MOTE_CAP {
        tool(&mut fx, &sprites, "a1", "Bash", i as u64);
    }
    assert!(fx.motes.len() <= DEFAULT_MOTE_CAP);
}

#[test]
fn zero_mote_cap_empties_the_queue() {
    let sprites = vec![sprite("a1", SimState::Seated)];
    let mut fx = Fx::new();
    tool(&mut fx, &sprites, "a1", "Read", 1);
    let mut l = limits();
    l.mote_cap = 0;
    fx.spawn_mote("a1", "Read", Some((0.0, 0.0)), 2, &l);
    assert!(fx.motes.is_empty());
}

#[test]
fn fx_store_tick_expires_motes_past_ttl() {
    let mut sprites = vec![sprite("a1", SimState::Seated)];
    let mut fx = Fx::new();
    tool(&mut fx, &sprites, "a1", "Read", 0);
    assert_eq!(fx.motes.len(), 1);
    tick(&mut fx, DEFAULT_MOTE_LIFETIME_MS, &mut sprites, &limits());
    assert_eq!(fx.motes.len(), 1);
    tick(&mut fx, DEFAULT_MOTE_LIFETIME_MS + 1, &mut sprites, &limits());
    assert!(fx.motes.is_empty());
}

#[test]
fn fx_store_tick_drops_footsteps_at_cadence() {
    let mut sprites = vec![sprite("a1", SimState::WalkingIn)];
    let mut fx = Fx::new();
    for t in (0..600).step_by(60) {
        tick(&mut fx, t, &mut sprites, &limits());
    }
    assert_eq!(fx.footsteps.len(), 5);
    assert_eq!(fx.footsteps[0].color, sim_colors("a1").shirt);
    assert_eq!(fx.footsteps[0].at, (100.0, 110.0));
}

#[test]
fn fx_store_seated_sim_does_not_drop_footsteps() {
    let mut sprites = vec![sprite("a1", SimState::Seated)];
    let mut fx = Fx::new();
    for t in (0..1_000).step_by(60) {
        tick(&mut fx, t, &mut sprites, &limits());
    }
    assert!(fx.footsteps.is_empty());
}

#[test]
fn footstep_cadence_rule() {
    assert!(footstep_due(SimState::WalkingOut, 0, 5, 120));
    assert!(!footstep_due(SimState::WalkingIn, 100, 219, 120));
    assert!(footstep_due(SimState::WalkingIn, 100, 220, 120));
    assert!(!footstep_due(SimState::Gone, 0, 1_000, 120));
    // A clock that went backwards is no time at all.
    assert!(!footstep_due(SimState::WalkingIn, 500, 100, 120));
}

#[test]
fn fx_store_halo_deduplicates_by_agent_id() {
    let mut fx = Fx::new();
    fx.flag_error("a1", 100);
    fx.flag_error("a1", 800);
    assert_eq!(fx.halos.len(), 1);
    assert_eq!(fx.halos[0].born_ms, 800);
    fx.flag_error("a2", 900);
    assert_eq!(fx.halos.len(), 2);
}

#[test]
fn fx_store_tether_only_when_parent_exists_in_sim_store() {
    let sprites = vec![sprite("parent-sid", SimState::Seated)];
    let mut fx = Fx::new();
    let agents = vec![
        Agent { agent_id: "child-1".into(), session_id: Some("parent-sid".into()), ..Default::default() },
        Agent { agent_id: "child-2".into(), session_id: Some("missing-sid".into()), ..Default::default() },
        Agent { agent_id: "self".into(), session_id: Some("self".into()), ..Default::default() },
        Agent { agent_id: "orphan".into(), session_id: None, ..Default::default() },
    ];
    for a in &agents {
        let present = match &a.session_id {
            Some(sid) => sprites.iter().any(|s| &s.id == sid),
            None => false,
        };
        fx.add_tether(a, present, 100);
    }
    assert_eq!(fx.tethers.len(), 1);
    assert_eq!(fx.tethers[0].parent, "parent-sid");
    assert_eq!(fx.tethers[0].child, "child-1");
}

#[test]
fn file_tick_caps_at_three() {
    let mut fx = Fx::new();
    for i in 0..5 {
        fx.add_file_tick(&format!("src/f{i}.rs"), 0, &limits());
    }
    assert_eq!(fx.file_ticks.len(), DEFAULT_FILE_TICK_CAP);
    assert_eq!(fx.file_ticks.front().unwrap().path, "src/f2.rs");
    assert_eq!(fx.file_ticks.back().unwrap().path, "src/f4.rs");
    fx.add_file_tick("", 0, &limits());
    assert_eq!(fx.file_ticks.len(), DEFAULT_FILE_TICK_CAP);
}

#[test]
fn file_tick_expires_at_ttl() {
    let mut sprites: Vec<Sprite> = Vec::new();
    let mut fx = Fx::new();
    fx.add_file_tick("src/x.rs", 0, &limits());
    tick(&mut fx, DEFAULT_FILE_TICK_MS, &mut sprites, &limits());
    assert_eq!(fx.file_ticks.len(), 1);
    tick(&mut fx, DEFAULT_FILE_TICK_MS + 1, &mut sprites, &limits());
    assert!(fx.file_ticks.is_empty());
}

#[test]
fn bench_flash_dedupes_by_station() {
    let mut fx = Fx::new();
    fx.flash_bench(Some(1), true, 100);
    assert_eq!(fx.bench_flashes.len(), 1);
    fx.flash_bench(Some(1), false, 400);
    assert_eq!(fx.bench_flashes.len(), 1);
    assert!(!fx.bench_flashes[0].ok);
    assert_eq!(fx.bench_flashes[0].born_ms, 400);
    fx.flash_bench(None, true, 500);
    assert_eq!(fx.bench_flashes.len(), 1);
}

#[test]
fn expire_keeps_fresh_effects_in_order() {
    let mut fx = Fx::new();
    let l = limits();
    fx.flag_error("a", 0);
    fx.flag_error("b", 1_500);
    fx.expire(l.halo_lifetime_ms + 1, &l);
    assert_eq!(fx.halos.len(), 1);
    assert_eq!(fx.halos[0].agent_id, "b");
}

#[test]
fn limits_follow_the_config() {
    let mut c = Config::default();
    c.mote_cap = 7;
    c.bench_flash_ms = 123;
    let l = FxLimits::from_config(&c);
    assert_eq!(l.mote_cap, 7);
    assert_eq!(l.bench_flash_ms, 123);
    assert_eq!(FxLimits::default(), FxLimits::from_config(&Config::default()));
}

#[test]
fn ingest_routes_each_event_kind() {
    let mut fx = Fx::new();
    let l = limits();
    let child = Agent { agent_id: "c1".into(), session_id: Some("s1".into()), ..Default::default() };
    fx.ingest(&Event::Start { agent: Box::new(child) }, None, None, true, 10, &l);
    assert_eq!(fx.tethers.len(), 1);
    assert_eq!(fx.tethers[0].parent, "s1");
    assert_eq!(fx.tethers[0].child, "c1");
    fx.ingest(&Event::ToolError { agent_id: "c1".into(), tool_name: "Bash".into(), message: "boom".into() }, None, None, false, 20, &l);
    fx.ingest(&Event::ToolError { agent_id: "c1".into(), tool_name: "Bash".into(), message: "again".into() }, None, None, false, 30, &l);
    assert_eq!(fx.halos.len(), 1);
    assert_eq!(fx.halos[0].born_ms, 30);
    fx.ingest(&Event::FileTouch { agent_id: "c1".into(), path: "src/main.rs".into() }, None, None, false, 40, &l);
    fx.ingest(&Event::FileTouch { agent_id: "c1".into(), path: String::new() }, None, None, false, 41, &l);
    assert_eq!(fx.file_ticks.len(), 1);
    assert_eq!(fx.file_ticks[0].path, "src/main.rs");
    fx.ingest(&Event::BashResult { agent_id: "c1".into(), ok: false }, None, Some(2), false, 50, &l);
    fx.ingest(&Event::BashResult { agent_id: "c1".into(), ok: true }, None, Some(2), false, 60, &l);
    fx.ingest(&Event::BashResult { agent_id: "zz".into(), ok: true }, None, None, false, 61, &l);
    assert_eq!(fx.bench_flashes.len(), 1);
    assert!(fx.bench_flashes[0].ok);
    assert_eq!(fx.bench_flashes[0].station_idx, 2);
    // Events without an effect leave the store alone.
    fx.ingest(&Event::Stop { agent_id: "c1".into() }, Some((1.0, 2.0)), Some(0), true, 70, &l);
    fx.ingest(&Event::Idle { agent_id: "c1".into(), idle: true }, Some((1.0, 2.0)), Some(0), true, 71, &l);
    assert_eq!(fx.tethers.len(), 1);
    assert_eq!(fx.halos.len(), 1);
    assert_eq!(fx.motes.len(), 0);
    assert_eq!(fx.bench_flashes.len(), 1);
}

#[test]
fn ingest_ignores_a_self_session_and_an_absent_parent() {
    let mut fx = Fx::new();
    let l = limits();
    let main = Agent { agent_id: "s1".into(), session_id: Some("s1".into()), ..Default::default() };
    fx.ingest(&Event::Start { agent: Box::new(main) }, None, None, true, 10, &l);
    let orphan = Agent { agent_id: "c2".into(), session_id: Some("s9".into()), ..Default::default() };
    fx.ingest(&Event::Start { agent: Box::new(orphan) }, None, None, false, 10, &l);
    assert!(fx.tethers.is_empty());
}
