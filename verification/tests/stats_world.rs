use workplacesim::config::Config;
use workplacesim::render::world::RenderWorld;
use workplacesim::state::payloads::{StartAgent, StopAgent};
use workplacesim::state::{Agent, State};
use workplacesim::stats::compute_agent_stats;

fn agent(id: &str, agent_type: &str, description: &str, mode: &str) -> Agent {
    Agent {
        agent_id: id.to_string(),
        agent_type: agent_type.to_string(),
        description: description.to_string(),
        permission_mode: mode.to_string(),
        ..Default::default()
    }
}

fn start(agent_id: &str, session_id: &str, agent_type: &str) -> StartAgent {
    StartAgent {
        agent_id: agent_id.to_string(),
        session_id: Some(session_id.to_string()),
        agent_type: Some(agent_type.to_string()),
        ..Default::default()
    }
}

#[test]
fn stats_of_no_agents_are_all_zero() {
    let st = compute_agent_stats(&Vec::new());
    assert_eq!(st.total, 0);
    assert!(st.by_type.is_empty());
    assert_eq!(st.by_room.desk, 0);
    assert_eq!(st.by_room.meeting, 0);
    assert_eq!(st.by_room.lab, 0);
    assert_eq!(st.by_room.transit, 0);
}

#[test]
fn stats_count_types_and_rooms() {
    let agents = vec![
        agent("a1", "coder", "coder", "default"),
        agent("a2", "verifier", "verifier", "default"),
    ];
    let st = compute_agent_stats(&agents);
    assert_eq!(st.total, 2);
    assert_eq!(st.by_type, vec![("coder".to_string(), 1), ("verifier".to_string(), 1)]);
    assert_eq!(st.by_room.desk, 1);
    assert_eq!(st.by_room.lab, 1);
    assert_eq!(st.by_room.meeting, 0);
    assert_eq!(st.by_room.transit, 0);
}

#[test]
fn stats_types_are_sorted_and_merged() {
    let agents = vec![
        agent("a1", "zeta", "", "plan"),
        agent("a2", "alpha", "", "default"),
        agent("a3", "zeta", "", "default"),
        agent("a4", "tester", "", "default"),
        agent("a5", "alpha", "", "plan"),
    ];
    let st = compute_agent_stats(&agents);
    assert_eq!(st.total, 5);
    assert_eq!(
        st.by_type,
        vec![
            ("alpha".to_string(), 2),
            ("tester".to_string(), 1),
            ("zeta".to_string(), 2),
        ]
    );
    assert_eq!(st.by_room.meeting, 2);
    assert_eq!(st.by_room.lab, 1);
    assert_eq!(st.by_room.desk, 2);
}

#[test]
fn render_world_orders_by_start_then_id_and_keeps_finished() {
    let mut s = State::new(Config::default());
    s.start_agent(start("b", "s1", "coder"), 2_000);
    s.start_agent(start("a", "s1", "coder"), 2_000);
    s.start_agent(start("c", "s2", "planner"), 1_000);
    s.stop_agent(StopAgent { agent_id: Some("b".into()), ..Default::default() }, 3_000);
    let w = RenderWorld::from_state(&s, 5_000);
    assert_eq!(w.now_ms, 5_000);
    let ids: Vec<&str> = w.agents.iter().map(|a| a.agent_id.as_str()).collect();
    assert_eq!(ids, vec!["c", "a", "b"]);
    assert_eq!(w.agents[0].started_at, 1_000);
    assert_eq!(w.agents[2].agent_type, "coder");
}

#[test]
fn render_world_of_empty_state_is_empty() {
    let s = State::new(Config::default());
    let w = RenderWorld::from_state(&s, 7);
    assert!(w.agents.is_empty());
    assert_eq!(w.now_ms, 7);
}
