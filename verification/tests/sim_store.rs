use workplacesim::render::classify::Room;
use workplacesim::render::routing::Target;
use workplacesim::render::sim_store::{target_for, SeatId, SeatRegistry, SimAnim, SimState, SimStore};
use workplacesim::render::world::{AgentView, RenderWorld};
use workplacesim::render::geometry::{door, OUTSIDE_X};
use workplacesim::render::geometry::{desk_seats, lab_stations, queue_spots, Point};

#[test]
fn seat_registry_allocates_and_releases() {
    let mut seats = SeatRegistry::new();
    let a = seats.allocate(Room::Lab, "a").unwrap();
    let b = seats.allocate(Room::Lab, "b").unwrap();
    let c = seats.allocate(Room::Lab, "c").unwrap();
    assert_ne!(a, b);
    assert_ne!(b, c);
    assert_ne!(a, c);
    assert!(seats.allocate(Room::Lab, "d").is_none());
    seats.release(b);
    let d = seats.allocate(Room::Lab, "d").unwrap();
    assert_eq!(d, b);
}

#[test]
fn seat_registry_first_free_and_holders() {
    let mut seats = SeatRegistry::default();
    for i in 0..12 {
        let s = seats.allocate(Room::Desk, &format!("a{i}")).unwrap();
        assert_eq!(s, SeatId::Desk(i));
    }
    assert!(seats.allocate(Room::Desk, "a12").is_none());
    assert_eq!(seats.holder(SeatId::Desk(5)), Some("a5"));
    seats.release(SeatId::Desk(5));
    assert_eq!(seats.holder(SeatId::Desk(5)), None);
    assert_eq!(seats.allocate(Room::Meeting, "m"), Some(SeatId::Meeting(0)));
    assert_eq!(seats.allocate(Room::Desk, "late"), Some(SeatId::Desk(5)));
    assert_eq!(seats.holder(SeatId::Desk(5)), Some("late"));
}

#[test]
fn target_for_seat_or_queue() {
    assert_eq!(target_for(Room::Desk, Some(SeatId::Desk(3)), 0), Target::Desk(desk_seats()[3]));
    assert_eq!(target_for(Room::Lab, Some(SeatId::Lab(2)), 9), Target::Lab(lab_stations()[2]));
    assert_eq!(target_for(Room::Desk, None, 6), Target::Queue(queue_spots()[2]));
    assert_eq!(target_for(Room::Meeting, None, 3), Target::MeetingQueue(Point::new(1152, 132)));
    assert_eq!(target_for(Room::Lab, None, 4), Target::LabQueue(Point::new(856, 556)));
    // A seat of another room is treated as no seat.
    assert_eq!(target_for(Room::Desk, Some(SeatId::Lab(0)), 1), Target::Queue(queue_spots()[1]));
}

/// Where a sprite stands and how far its bob has gone.
type Motion = (f32, f32, f32);

fn at_door() -> Motion {
    (OUTSIDE_X as f32, door().y as f32, 0.0)
}

fn agent(id: &str, user: &str, agent_type: &str, mode: &str, started_at: u64, finished_at: Option<u64>) -> AgentView {
    AgentView {
        agent_id: id.into(),
        session_id: None,
        user: user.into(),
        agent_type: agent_type.into(),
        description: String::new(),
        permission_mode: mode.into(),
        started_at,
        finished_at,
        session_label: None,
    }
}

fn world(agents: Vec<AgentView>, now_ms: u64) -> RenderWorld {
    RenderWorld { agents, now_ms }
}

fn sim<'a>(store: &'a SimStore<Motion>, id: &str) -> &'a SimAnim<Motion> {
    store.anim.iter().find(|s| s.agent_id == id).expect("sim exists")
}

#[test]
fn reconcile_spawns_new_agent() {
    let mut store = SimStore::new();
    let w = world(vec![agent("a1", "alice", "coder", "default", 0, None)], 0);
    store.reconcile(&w, at_door());
    let s = sim(&store, "a1");
    assert_eq!(s.state, SimState::WalkingIn);
    assert!(!s.path.is_empty(), "path should be non-empty");
    assert_eq!(s.motion.0, OUTSIDE_X as f32);
    assert_eq!(s.motion.1, door().y as f32);
}

#[test]
fn reconcile_marks_finished_as_walking_out() {
    let mut store = SimStore::new();
    let a0 = agent("a1", "alice", "coder", "default", 0, None);
    store.reconcile(&world(vec![a0], 0), at_door());
    let sim_seat = sim(&store, "a1").seat;
    assert!(sim_seat.is_some());
    let finished = agent("a1", "alice", "coder", "default", 0, Some(1_000));
    store.reconcile(&world(vec![finished], 1_000), at_door());
    let s = sim(&store, "a1");
    assert_eq!(s.state, SimState::WalkingOut);
    assert!(s.seat.is_none(), "seat released on walk-out");
    assert!(!s.path.is_empty(), "walk-out path should be non-empty");
    assert!(store.seats.holder(sim_seat.unwrap()).is_none());
}

#[test]
fn reconcile_clears_seated_since_on_walk_out() {
    let mut store = SimStore::new();
    let a0 = agent("a1", "alice", "coder", "default", 0, None);
    store.reconcile(&world(vec![a0], 0), at_door());
    let s = store.anim.iter_mut().find(|s| s.agent_id == "a1").unwrap();
    s.state = SimState::Seated;
    s.seated_since_ms = Some(500);
    let finished = agent("a1", "alice", "coder", "default", 0, Some(1_000));
    store.reconcile(&world(vec![finished], 1_000), at_door());
    assert_eq!(sim(&store, "a1").state, SimState::WalkingOut);
    assert_eq!(sim(&store, "a1").seated_since_ms, None);
}

#[test]
fn classification_picks_correct_room() {
    let mut store = SimStore::new();
    store.reconcile(
        &world(
            vec![
                agent("a1", "u", "verifier", "default", 0, None),
                agent("a2", "u", "coder", "plan", 0, None),
                agent("a3", "u", "coder", "default", 0, None),
            ],
            0,
        ),
        at_door(),
    );
    assert_eq!(sim(&store, "a1").room, Room::Lab);
    assert_eq!(sim(&store, "a2").room, Room::Meeting);
    assert_eq!(sim(&store, "a3").room, Room::Desk);
    assert!(matches!(sim(&store, "a1").seat, Some(SeatId::Lab(_))));
    assert!(matches!(sim(&store, "a2").seat, Some(SeatId::Meeting(_))));
    assert!(matches!(sim(&store, "a3").seat, Some(SeatId::Desk(_))));
}

#[test]
fn fifth_desk_agent_with_full_seats_goes_to_queue() {
    let mut store = SimStore::new();
    let mut agents = Vec::new();
    for i in 0..13 {
        agents.push(agent(&format!("a{i}"), "u", "coder", "default", i as u64, None));
    }
    store.reconcile(&world(agents, 0), at_door());
    assert_eq!(store.anim.len(), 13);
    assert!(sim(&store, "a12").seat.is_none(), "overflow has no seat");
}

#[test]
fn reconcile_drops_gone_sprites_of_departed_agents() {
    let mut store = SimStore::new();
    store.reconcile(&world(vec![agent("a1", "u", "coder", "default", 0, None)], 0), at_door());
    let s = store.anim.iter_mut().find(|s| s.agent_id == "a1").unwrap();
    s.state = SimState::Gone;
    // Still in the world: kept.
    store.reconcile(&world(vec![agent("a1", "u", "coder", "default", 0, Some(5))], 10), at_door());
    assert_eq!(store.anim.len(), 1);
    // Left the world: dropped.
    store.reconcile(&world(vec![], 20), at_door());
    assert!(store.anim.is_empty());
}

#[test]
fn settle_seats_and_removes_at_path_end() {
    let mut store = SimStore::new();
    store.reconcile(&world(vec![agent("a1", "u", "coder", "default", 0, None)], 0), at_door());
    let s = &mut store.anim[0];
    s.path.clear();
    s.settle(500);
    assert_eq!(s.state, SimState::Seated);
    assert_eq!(s.seated_at_ms, Some(500));
    assert_eq!(s.seated_since_ms, Some(500));
    assert!(s.is_alive());
    s.state = SimState::WalkingOut;
    s.settle(900);
    assert_eq!(s.state, SimState::Gone);
    assert_eq!(s.seated_since_ms, None);
    assert!(!s.is_alive());
}

#[test]
fn live_agents_always_get_a_sprite() {
    let mut store = SimStore::new();
    let mut agents = Vec::new();
    for i in 0..20 {
        agents.push(agent(&format!("b{i}"), "u", if i % 3 == 0 { "tester" } else { "coder" }, if i % 4 == 0 { "plan" } else { "default" }, i as u64, None));
    }
    store.reconcile(&world(agents.clone(), 0), at_door());
    for a in &agents {
        assert!(store.anim.iter().any(|s| s.agent_id == a.agent_id));
    }
}
