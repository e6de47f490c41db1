use workplacesim::state::demo::demo_starts;
use workplacesim::state::State;
use workplacesim::config::Config;

#[test]
fn demo_crew_cycles_profiles_and_alternates_sessions() {
    let starts = demo_starts(7, 1_000);
    assert_eq!(starts.len(), 7);
    let (p0, t0) = &starts[0];
    assert_eq!(p0.agent_id, "demo-0");
    assert_eq!(p0.session_id.as_deref(), Some("demo-session-0"));
    assert_eq!(p0.user.as_deref(), Some("alice"));
    assert_eq!(p0.agent_type.as_deref(), Some("coder"));
    assert_eq!(p0.permission_mode.as_deref(), Some("default"));
    assert_eq!(p0.description.as_deref(), Some("edit the auth module"));
    assert_eq!(p0.host.as_deref(), Some("demo"));
    assert_eq!(p0.cwd.as_deref(), Some("/tmp"));
    assert_eq!(*t0, 1_000);
    let (p2, t2) = &starts[2];
    assert_eq!(p2.user.as_deref(), Some("carol"));
    assert_eq!(p2.permission_mode.as_deref(), Some("plan"));
    assert_eq!(*t2, 5_000);
    let (p3, _) = &starts[3];
    assert_eq!(p3.session_id.as_deref(), Some("demo-session-1"));
    let (p6, t6) = &starts[6];
    assert_eq!(p6.agent_id, "demo-6");
    assert_eq!(p6.user.as_deref(), Some("alice"));
    assert_eq!(*t6, 13_000);
}

#[test]
fn demo_crew_shares_one_label_per_session() {
    let mut s = State::new(Config::default());
    for (p, at) in demo_starts(4, 0) {
        s.start_agent(p, at);
    }
    let agents = s.list_active();
    assert_eq!(agents.len(), 4);
    let label = |id: &str| agents.iter().find(|a| a.agent_id == id).and_then(|a| a.session_label.clone());
    assert_eq!(label("demo-0"), label("demo-2"));
    assert_eq!(label("demo-1"), label("demo-3"));
    assert_ne!(label("demo-0"), label("demo-1"));
    assert!(label("demo-0").is_some());
}
