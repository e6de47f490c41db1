use workplacesim::config::{
    Config, DEFAULT_PENDING_TTL_MS, DEFAULT_STOP_GRACE_MS, DEFAULT_VISIT_MAX_MS, DEFAULT_VISIT_MIN_MS,
};
use workplacesim::state::payloads::{BufferDescription, Lifecycle, StartAgent, StopAgent, ToolEvent, VisitRoom};
use workplacesim::state::{visit_ttl_ms, Event, State, Visit};

const PENDING_TTL_MS: u64 = DEFAULT_PENDING_TTL_MS;
const STOP_GRACE_MS: u64 = DEFAULT_STOP_GRACE_MS;
const VISIT_MIN_MS: u64 = DEFAULT_VISIT_MIN_MS;
const VISIT_MAX_MS: u64 = DEFAULT_VISIT_MAX_MS;

fn setup() -> State {
    State::new(Config::default())
}

fn start(agent_id: &str, session_id: Option<&str>, agent_type: Option<&str>) -> StartAgent {
    StartAgent {
        agent_id: agent_id.to_string(),
        session_id: session_id.map(|s| s.to_string()),
        agent_type: agent_type.map(|s| s.to_string()),
        ..Default::default()
    }
}

fn stop_id(id: &str) -> StopAgent {
    StopAgent { agent_id: Some(id.into()), ..Default::default() }
}

fn lifecycle(kind: &str, agent_id: Option<&str>) -> Lifecycle {
    Lifecycle { kind: Some(kind.into()), agent_id: agent_id.map(|s| s.into()), ..Default::default() }
}

#[test]
fn mod_start_agent_inserts_and_emits_start() {
    let mut s = setup();
    let a = s.start_agent(start("a1", Some("sess"), Some("coder")), 1_000);
    assert!(a.is_some());
    assert_eq!(s.list_active().len(), 1);
    let events = s.take_events();
    assert_eq!(events.len(), 1);
    match &events[0] {
        Event::Start { agent } => {
            assert_eq!(agent.agent_id, "a1");
            assert_eq!(agent.agent_type, "coder");
            assert_eq!(agent.description, "coder");
            assert_eq!(agent.user, "unknown");
            assert_eq!(agent.permission_mode, "default");
            assert_eq!(agent.started_at, 1_000);
        }
        other => panic!("expected Start, got {other:?}"),
    }
}

#[test]
fn mod_start_agent_idempotent_by_agent_id() {
    let mut s = setup();
    s.start_agent(start("a1", Some("sess"), Some("coder")), 1_000);
    let _ = s.take_events();
    let again = s.start_agent(start("a1", Some("sess"), Some("other")), 2_000);
    assert_eq!(s.list_active().len(), 1);
    assert!(again.is_some());
    assert_eq!(again.unwrap().agent_type, "coder");
    assert!(s.take_events().is_empty(), "no second event");
}

#[test]
fn mod_start_agent_description_fallback_uses_pending() {
    let mut s = setup();
    s.buffer_description(
        BufferDescription {
            session_id: Some("sess".into()),
            subagent_type: Some("verifier".into()),
            description: Some("run golden-frame tests".into()),
            tool_use_id: Some("tu-1".into()),
        },
        1_000,
    );
    s.start_agent(
        StartAgent {
            agent_id: "tu-1".into(),
            session_id: Some("sess".into()),
            agent_type: Some("verifier".into()),
            description: None,
            ..Default::default()
        },
        1_500,
    );
    let events = s.take_events();
    assert_eq!(events.len(), 1);
    match &events[0] {
        Event::Start { agent } => assert_eq!(agent.description, "run golden-frame tests"),
        other => panic!("expected Start, got {other:?}"),
    }
    assert_eq!(s.pending_count(), 0);
}

#[test]
fn mod_start_agent_description_fallback_expired_pending_consumed_but_empty() {
    let mut s = setup();
    s.buffer_description(
        BufferDescription {
            session_id: Some("sess".into()),
            subagent_type: Some("verifier".into()),
            description: Some("stale description".into()),
            tool_use_id: None,
        },
        0,
    );
    let start_ms = PENDING_TTL_MS + 1_000;
    s.start_agent(
        StartAgent {
            agent_id: "a1".into(),
            session_id: Some("sess".into()),
            agent_type: Some("verifier".into()),
            ..Default::default()
        },
        start_ms,
    );
    let events = s.take_events();
    match &events[0] {
        Event::Start { agent } => assert_eq!(agent.description, "verifier"),
        other => panic!("expected Start, got {other:?}"),
    }
    assert_eq!(s.pending_count(), 0);
}

#[test]
fn mod_stop_agent_direct_by_agent_id() {
    let mut s = setup();
    s.start_agent(start("a1", Some("sess"), Some("coder")), 1_000);
    let _ = s.take_events();
    let stopped = s.stop_agent(
        StopAgent {
            agent_id: Some("a1".into()),
            last_assistant_message: Some("done".into()),
            ..Default::default()
        },
        2_000,
    );
    assert!(stopped.is_some());
    let stopped = stopped.unwrap();
    assert_eq!(stopped.finished_at, Some(2_000));
    assert_eq!(stopped.last_message.as_deref(), Some("done"));
    assert_eq!(s.list_active().len(), 0);
    assert!(s.record("a1").is_some());
    assert_eq!(s.stop_deadline("a1"), Some(2_000 + STOP_GRACE_MS));
    let events = s.take_events();
    assert_eq!(events.len(), 1);
    assert!(matches!(&events[0], Event::Stop { agent_id } if agent_id == "a1"));
}

#[test]
fn mod_stop_agent_fifo_fallback() {
    let mut s = setup();
    s.start_agent(start("tu-1", Some("sess"), Some("verifier")), 1_000);
    s.start_agent(start("tu-2", Some("sess"), Some("verifier")), 1_010);
    let _ = s.take_events();
    let stopped = s.stop_agent(
        StopAgent {
            agent_id: Some("different-id-from-stop".into()),
            session_id: Some("sess".into()),
            agent_type: Some("verifier".into()),
            last_assistant_message: None,
        },
        2_000,
    );
    assert!(stopped.is_some());
    assert_eq!(stopped.as_ref().unwrap().agent_id, "tu-1");
    let events = s.take_events();
    assert_eq!(events.len(), 1);
    assert!(matches!(&events[0], Event::Stop { agent_id } if agent_id == "tu-1"));
    assert!(s.record("tu-2").map(|r| r.finished_at.is_none()).unwrap_or(false));
}

#[test]
fn mod_stop_agent_miss() {
    let mut s = setup();
    let r = s.stop_agent(stop_id("unknown"), 1_000);
    assert!(r.is_none());
    assert!(s.take_events().is_empty());
}

#[test]
fn mod_tick_finalizes_pending_stops_after_grace() {
    let mut s = setup();
    s.start_agent(start("a1", Some("sess"), Some("coder")), 0);
    s.stop_agent(stop_id("a1"), 0);
    let _ = s.take_events();
    s.tick(STOP_GRACE_MS - 1);
    assert!(s.record("a1").is_some(), "still present before grace");
    s.tick(STOP_GRACE_MS + 1);
    assert!(s.record("a1").is_none(), "removed after grace");
    assert!(s.stop_deadline("a1").is_none());
}

#[test]
fn mod_visit_room_accepts_valid_rooms() {
    let mut s = setup();
    s.start_agent(start("a1", Some("sess"), Some("coder")), 0);
    let _ = s.take_events();
    for room in ["test", "meeting", "desk"] {
        let r = s.visit_room(
            VisitRoom { agent_id: Some("a1".into()), room: Some(room.into()), ttl_ms: Some(5_000), ..Default::default() },
            1_000,
        );
        assert!(r.is_some(), "room {room} should be accepted");
    }
    let events = s.take_events();
    assert_eq!(events.len(), 3);
    for ev in &events {
        assert!(matches!(ev, Event::Visit { room: Some(_), .. }));
    }
}

#[test]
fn mod_visit_room_rejects_unknown_room() {
    let mut s = setup();
    s.start_agent(start("a1", Some("sess"), Some("coder")), 0);
    let _ = s.take_events();
    let r = s.visit_room(
        VisitRoom { agent_id: Some("a1".into()), room: Some("kitchen".into()), ttl_ms: Some(5_000), ..Default::default() },
        1_000,
    );
    assert!(r.is_none());
    assert!(s.take_events().is_empty());
}

#[test]
fn mod_visit_room_clamps_ttl() {
    let mut s = setup();
    s.start_agent(start("a1", Some("sess"), Some("coder")), 0);
    let _ = s.take_events();
    s.visit_room(
        VisitRoom { agent_id: Some("a1".into()), room: Some("test".into()), ttl_ms: Some(100), ..Default::default() },
        1_000,
    );
    assert_eq!(s.record("a1").unwrap().visit.unwrap().until, 1_000 + VISIT_MIN_MS);
    s.override_visit("a1", None);
    s.visit_room(
        VisitRoom { agent_id: Some("a1".into()), room: Some("test".into()), ttl_ms: Some(999_999_999), ..Default::default() },
        2_000,
    );
    assert_eq!(s.record("a1").unwrap().visit.unwrap().until, 2_000 + VISIT_MAX_MS);
    s.override_visit("a1", None);
    s.visit_room(
        VisitRoom { agent_id: Some("a1".into()), room: Some("test".into()), ttl_ms: None, ..Default::default() },
        3_000,
    );
    assert_eq!(s.record("a1").unwrap().visit.unwrap().until, 3_000 + Config::default().visit_default_ms);
}

#[test]
fn mod_visit_room_extends_existing_until() {
    let mut s = setup();
    s.start_agent(start("a1", Some("sess"), Some("coder")), 0);
    let _ = s.take_events();
    s.visit_room(
        VisitRoom { agent_id: Some("a1".into()), room: Some("test".into()), ttl_ms: Some(60_000), ..Default::default() },
        1_000,
    );
    assert_eq!(s.record("a1").unwrap().visit.unwrap().until, 61_000);
    s.visit_room(
        VisitRoom { agent_id: Some("a1".into()), room: Some("meeting".into()), ttl_ms: Some(5_000), ..Default::default() },
        2_000,
    );
    assert_eq!(s.record("a1").unwrap().visit.unwrap().until, 61_000);
    s.visit_room(
        VisitRoom { agent_id: Some("a1".into()), room: Some("desk".into()), ttl_ms: Some(120_000), ..Default::default() },
        5_000,
    );
    assert_eq!(s.record("a1").unwrap().visit.unwrap().until, 125_000);
}

#[test]
fn mod_tick_expires_visit_and_emits_null() {
    let mut s = setup();
    s.start_agent(start("a1", Some("sess"), Some("coder")), 0);
    s.override_visit("a1", Some(Visit { room: "test".into(), until: 500 }));
    let _ = s.take_events();
    s.tick(400);
    assert!(s.record("a1").unwrap().visit.is_some());
    assert!(s.take_events().is_empty());
    s.tick(600);
    assert!(s.record("a1").unwrap().visit.is_none());
    let events = s.take_events();
    assert_eq!(events.len(), 1);
    assert!(matches!(&events[0], Event::Visit { room: None, until: None, agent_id } if agent_id == "a1"));
}

#[test]
fn mod_permission_mode_change_emits_reclassify() {
    let mut s = setup();
    s.start_agent(start("a1", Some("sess"), Some("coder")), 0);
    let _ = s.take_events();
    s.tool_event(
        ToolEvent { agent_id: Some("a1".into()), tool_name: Some("Read".into()), permission_mode: Some("plan".into()), ..Default::default() },
        1_000,
    );
    assert_eq!(s.record("a1").unwrap().permission_mode, "plan");
    let events = s.take_events();
    assert_eq!(events.len(), 2);
    assert!(matches!(&events[0], Event::Reclassify { permission_mode, .. } if permission_mode == "plan"));
    assert!(matches!(&events[1], Event::Tool { .. }));
}

#[test]
fn mod_permission_mode_same_no_event() {
    let mut s = setup();
    s.start_agent(
        StartAgent {
            agent_id: "a1".into(),
            session_id: Some("sess".into()),
            agent_type: Some("coder".into()),
            permission_mode: Some("plan".into()),
            ..Default::default()
        },
        0,
    );
    let _ = s.take_events();
    s.tool_event(
        ToolEvent { agent_id: Some("a1".into()), tool_name: Some("Read".into()), permission_mode: Some("plan".into()), ..Default::default() },
        1_000,
    );
    let events = s.take_events();
    assert_eq!(events.len(), 1);
    assert!(matches!(&events[0], Event::Tool { .. }));
}

#[test]
fn mod_lifecycle_prompt_truncates_and_clears_idle() {
    let mut s = setup();
    s.start_agent(start("a1", Some("sess"), Some("coder")), 0);
    s.handle_lifecycle(lifecycle("idle", Some("a1")), 1_000);
    let _ = s.take_events();
    let long_text: String = "x".repeat(200);
    s.handle_lifecycle(
        Lifecycle { kind: Some("prompt".into()), agent_id: Some("a1".into()), text: Some(long_text), ..Default::default() },
        2_000,
    );
    let events = s.take_events();
    assert_eq!(events.len(), 2);
    match &events[0] {
        Event::Idle { idle: false, agent_id } => assert_eq!(agent_id, "a1"),
        other => panic!("expected Idle(false), got {other:?}"),
    }
    match &events[1] {
        Event::Prompt { text, agent_id } => {
            assert_eq!(text.len(), 80);
            assert_eq!(agent_id, "a1");
        }
        other => panic!("expected Prompt, got {other:?}"),
    }
    let rec = s.record("a1").unwrap();
    assert_eq!(rec.idle, Some(false));
    assert_eq!(rec.session_prompt.as_ref().unwrap().len(), 80);
}

#[test]
fn mod_lifecycle_idle_idempotent() {
    let mut s = setup();
    s.start_agent(start("a1", Some("sess"), Some("coder")), 0);
    let _ = s.take_events();
    s.handle_lifecycle(lifecycle("idle", Some("a1")), 1_000);
    s.handle_lifecycle(lifecycle("idle", Some("a1")), 2_000);
    let events = s.take_events();
    assert_eq!(events.len(), 1);
    assert!(matches!(&events[0], Event::Idle { idle: true, .. }));
}

#[test]
fn mod_lifecycle_turn_end_finds_via_session_id() {
    let mut s = setup();
    s.start_agent(
        StartAgent { agent_id: "sess-1".into(), session_id: Some("sess-1".into()), agent_type: Some("general-purpose".into()), ..Default::default() },
        0,
    );
    let _ = s.take_events();
    s.handle_lifecycle(
        Lifecycle { kind: Some("turn-end".into()), agent_id: None, session_id: Some("sess-1".into()), ..Default::default() },
        1_000,
    );
    let events = s.take_events();
    assert_eq!(events.len(), 1);
    assert!(matches!(&events[0], Event::TurnEnd { agent_id } if agent_id == "sess-1"));
}

#[test]
fn mod_lifecycle_tool_error_stores_current_error_and_emits() {
    let mut s = setup();
    s.start_agent(start("a1", Some("sess"), Some("coder")), 0);
    let _ = s.take_events();
    let long = "e".repeat(200);
    s.handle_lifecycle(
        Lifecycle {
            kind: Some("tool-error".into()),
            agent_id: Some("a1".into()),
            tool_name: Some("Bash".into()),
            message: Some(long),
            ..Default::default()
        },
        5_000,
    );
    let stored = s.record("a1").unwrap().current_error.unwrap();
    assert_eq!(stored.tool_name, "Bash");
    assert_eq!(stored.message.len(), 80);
    assert_eq!(stored.ts, 5_000);
    let events = s.take_events();
    assert_eq!(events.len(), 1);
    match &events[0] {
        Event::ToolError { message, tool_name, .. } => {
            assert_eq!(message.len(), 80);
            assert_eq!(tool_name, "Bash");
        }
        other => panic!("expected ToolError, got {other:?}"),
    }
}

#[test]
fn mod_list_active_excludes_finished() {
    let mut s = setup();
    s.start_agent(start("a1", Some("sess"), Some("coder")), 0);
    assert_eq!(s.list_active().len(), 1);
    s.stop_agent(stop_id("a1"), 1_000);
    assert_eq!(s.list_active().len(), 0);
    assert_eq!(s.list_all_including_finished().len(), 1);
}

#[test]
fn mod_find_record_rejects_finished() {
    let mut s = setup();
    s.start_agent(start("a1", Some("sess"), Some("coder")), 0);
    s.stop_agent(stop_id("a1"), 1_000);
    let _ = s.take_events();
    let r = s.handle_lifecycle(lifecycle("turn-end", Some("a1")), 2_000);
    assert!(r.is_none());
    assert!(s.take_events().is_empty());
    let r = s.visit_room(
        VisitRoom { agent_id: Some("a1".into()), room: Some("test".into()), ..Default::default() },
        3_000,
    );
    assert!(r.is_none());
    assert!(s.take_events().is_empty());
}

#[test]
fn mod_tool_event_unknown_agent_logs_no_emit() {
    let mut s = setup();
    s.tool_event(
        ToolEvent { agent_id: Some("ghost".into()), tool_name: Some("Read".into()), ..Default::default() },
        1_000,
    );
    assert!(s.take_events().is_empty());
}

#[test]
fn mod_tick_sweeps_expired_pending_descriptions() {
    let mut s = setup();
    s.buffer_description(
        BufferDescription {
            session_id: Some("sess".into()),
            subagent_type: Some("verifier".into()),
            description: Some("x".into()),
            ..Default::default()
        },
        0,
    );
    s.tick(PENDING_TTL_MS - 1);
    assert_eq!(s.pending_count(), 1);
    s.tick(PENDING_TTL_MS + 1);
    assert_eq!(s.pending_count(), 0);
}

#[test]
fn session_label_assigned_in_pool_order_and_reused_per_session() {
    let mut s = setup();
    let a = s.start_agent(start("a1", Some("sess-1"), Some("general-purpose")), 0).unwrap();
    let b = s.start_agent(start("a2", Some("sess-1"), Some("verifier")), 0).unwrap();
    let c = s.start_agent(start("a3", Some("sess-2"), Some("general-purpose")), 0).unwrap();
    assert_eq!(a.session_label.as_deref(), Some("1"));
    assert_eq!(b.session_label.as_deref(), Some("1"));
    assert_eq!(c.session_label.as_deref(), Some("2"));
}

#[test]
fn session_label_none_when_no_session_id() {
    let mut s = setup();
    let a = s.start_agent(start("a1", None, Some("coder")), 0).unwrap();
    assert!(a.session_label.is_none());
}

#[test]
fn session_label_released_only_when_last_record_finalised() {
    let mut s = setup();
    s.start_agent(start("a1", Some("sess"), Some("general-purpose")), 0);
    s.start_agent(start("a2", Some("sess"), Some("verifier")), 0);
    let _ = s.take_events();
    s.stop_agent(stop_id("a1"), 0);
    s.tick(STOP_GRACE_MS + 1);
    let next = s.start_agent(start("a3", Some("other"), Some("general-purpose")), 100).unwrap();
    assert_eq!(next.session_label.as_deref(), Some("2"));
    s.stop_agent(stop_id("a2"), 100);
    s.tick(100 + STOP_GRACE_MS + 1);
    assert!(s.session_label_of("sess").is_none());
    assert!(s.pool_contains('1'));
}

#[test]
fn mod_snapshot_event_reflects_active_only() {
    let mut s = setup();
    s.start_agent(start("a1", Some("sess"), Some("coder")), 0);
    s.start_agent(start("a2", Some("sess"), Some("verifier")), 0);
    s.stop_agent(stop_id("a1"), 100);
    let _ = s.take_events();
    match s.snapshot_event() {
        Event::Snapshot { agents } => {
            assert_eq!(agents.len(), 1);
            assert_eq!(agents[0].agent_id, "a2");
        }
        other => panic!("expected Snapshot, got {other:?}"),
    }
}

#[test]
fn events_are_counted_for_the_rate_readout() {
    let mut s = setup();
    s.start_agent(start("a1", Some("sess"), Some("coder")), 1_000);
    s.tool_event(ToolEvent { agent_id: Some("a1".into()), tool_name: Some("Read".into()), ..Default::default() }, 2_000);
    assert_eq!(s.events_total(), 2);
    // Events are stamped with the time of the transition that emits them.
    assert_eq!(s.recent_event_count(2_000), 2);
    assert_eq!(s.recent_event_count(61_500), 1);
    assert_eq!(s.recent_event_count(2_000 + 10 * 60_000), 0);
}

#[test]
fn visit_ttl_is_clamped_into_the_configured_window() {
    let c = Config::default();
    assert_eq!(visit_ttl_ms(None, &c), 20_000);
    assert_eq!(visit_ttl_ms(Some(0), &c), 20_000);
    assert_eq!(visit_ttl_ms(Some(5), &c), VISIT_MIN_MS);
    assert_eq!(visit_ttl_ms(Some(45_000), &c), 45_000);
    assert_eq!(visit_ttl_ms(Some(u64::MAX), &c), VISIT_MAX_MS);
}

#[test]
fn taking_events_keeps_the_rate_history() {
    let mut s = setup();
    s.start_agent(start("a1", Some("sess"), Some("coder")), 1_000);
    let _ = s.take_events();
    assert_eq!(s.recent_event_count(1_500), 1);
    s.start_agent(start("a2", Some("sess2"), Some("coder")), 3_000);
    assert_eq!(s.recent_event_count(3_000), 2);
    assert_eq!(s.recent_event_count(61_500), 1);
}
