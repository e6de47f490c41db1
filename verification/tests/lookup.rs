use workplacesim::render::classify::Room;
use workplacesim::render::fb::{pixel_format_of, PixelFormat};
use workplacesim::render::geometry::Point;
use workplacesim::render::sim_store::{sim_index, SimAnim, SimState};

fn sim(id: &str) -> SimAnim<()> {
    SimAnim {
        agent_id: id.into(),
        session_id: None,
        session_label: None,
        user: "u".into(),
        permission_mode: "default".into(),
        is_lab: false,
        motion: (),
        path: vec![Point::new(10, 10)],
        seat: None,
        room: Room::Desk,
        state: SimState::Seated,
        spawned_at_ms: 0,
        seated_at_ms: None,
        seated_since_ms: None,
        overflow_hash: 0,
        last_footstep_ms: 0,
    }
}

#[test]
fn framebuffer_formats_by_depth_and_offsets() {
    assert_eq!(pixel_format_of(16, 11, 5, 0), Some(PixelFormat::Rgb565));
    assert_eq!(pixel_format_of(32, 16, 8, 0), Some(PixelFormat::Xrgb8888));
    assert_eq!(pixel_format_of(32, 0, 8, 16), Some(PixelFormat::Xrgb8888));
    assert_eq!(pixel_format_of(24, 16, 8, 0), None);
    assert_eq!(pixel_format_of(16, 0, 5, 11), None);
}

#[test]
fn sprites_are_found_by_agent_id() {
    let sims = vec![sim("a"), sim("b"), sim("c")];
    assert_eq!(sim_index(&sims, "b"), Some(1));
    assert_eq!(sim_index(&sims, "a"), Some(0));
    assert_eq!(sim_index(&sims, "z"), None);
}
