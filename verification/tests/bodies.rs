use workplacesim::render::bodies::{badge_color, draw_sim, draw_sims, leg_lengths, paint_order, Pose, LAB_BADGE, PLAN_BADGE, SHADOW};
use workplacesim::render::classify::Room;
use workplacesim::render::frame::RenderFrame;
use workplacesim::render::geometry::Point;
use workplacesim::render::palette::{rgb_from_hex, sim_colors, Rgb, BG};
use workplacesim::render::sim_store::{SimAnim, SimState};
use workplacesim::render::{RENDER_H, RENDER_W};

fn frame() -> RenderFrame {
    let mut fb = RenderFrame::new(RENDER_W, RENDER_H);
    fb.clear(rgb_from_hex(BG));
    fb
}

fn sim(id: &str, user: &str, state: SimState, mode: &str) -> SimAnim<()> {
    SimAnim {
        agent_id: id.into(),
        session_id: None,
        session_label: None,
        user: user.into(),
        permission_mode: mode.into(),
        is_lab: false,
        motion: (),
        path: vec![Point::new(10, 10)],
        seat: None,
        room: Room::Desk,
        state,
        spawned_at_ms: 0,
        seated_at_ms: None,
        seated_since_ms: None,
        overflow_hash: 0,
        last_footstep_ms: 0,
    }
}

fn pose(x: i32, y: i32) -> Pose {
    Pose { x, y, bob: 0, swing: 0 }
}

#[test]
fn shadow_is_the_floor_darkened_toward_black() {
    assert_eq!(rgb_from_hex(SHADOW), Rgb(6, 7, 10));
}

#[test]
fn legs_swing_only_while_walking() {
    assert_eq!(leg_lengths(SimState::WalkingIn, 5, 2), (3, 5));
    assert_eq!(leg_lengths(SimState::WalkingOut, 5, -7), (5, 1));
    assert_eq!(leg_lengths(SimState::Seated, 5, 3), (5, 5));
    assert_eq!(leg_lengths(SimState::WalkingIn, 5, 0), (5, 5));
}

#[test]
fn badges_mark_lab_and_plan_sprites() {
    let mut s = sim("a", "alice", SimState::Seated, "plan");
    assert_eq!(badge_color(&s), Some(rgb_from_hex(PLAN_BADGE)));
    s.is_lab = true;
    assert_eq!(badge_color(&s), Some(rgb_from_hex(LAB_BADGE)));
    let d = sim("b", "bob", SimState::Seated, "default");
    assert_eq!(badge_color(&d), None);
}

#[test]
fn seated_body_parts_land_where_they_belong() {
    let mut fb = frame();
    let s = sim("a", "alice", SimState::Seated, "default");
    draw_sim(&mut fb, &s, Pose { x: 200, y: 200, bob: -1, swing: 0 });
    let c = sim_colors("alice");
    let bg = rgb_from_hex(BG);
    // Centre (100, 99): the seated bob lifts the body one pixel.
    assert_eq!(fb.get_pixel(93, 110), rgb_from_hex(SHADOW));
    assert_eq!(fb.get_pixel(106, 111), rgb_from_hex(SHADOW));
    assert_eq!(fb.get_pixel(92, 110), bg);
    assert_eq!(fb.get_pixel(96, 109), c.pants);
    assert_eq!(fb.get_pixel(102, 109), c.pants);
    assert_eq!(fb.get_pixel(98, 109), bg);
    assert_eq!(fb.get_pixel(95, 95), c.shirt);
    assert_eq!(fb.get_pixel(105, 107), c.shirt);
    assert_eq!(fb.get_pixel(94, 100), bg);
    assert_eq!(fb.get_pixel(100, 94), c.skin);
    assert_eq!(fb.get_pixel(100, 90), c.skin);
    assert_eq!(fb.get_pixel(96, 86), c.hair);
    assert_eq!(fb.get_pixel(104, 89), c.hair);
    assert_eq!(fb.get_pixel(100, 85), bg);
}

#[test]
fn walking_bodies_ignore_the_bob_and_badges_sit_on_the_chest() {
    let mut fb = frame();
    let s = sim("a", "alice", SimState::WalkingIn, "plan");
    draw_sim(&mut fb, &s, Pose { x: 200, y: 200, bob: -1, swing: 2 });
    let c = sim_colors("alice");
    // Centre (100, 100): torso from row 96, badge one pixel in from its corner.
    assert_eq!(fb.get_pixel(95, 96), c.shirt);
    assert_eq!(fb.get_pixel(96, 97), rgb_from_hex(PLAN_BADGE));
    // Left leg shortened by the swing: rows 107..=109, right leg to row 111.
    assert_eq!(fb.get_pixel(96, 109), c.pants);
    assert_eq!(fb.get_pixel(96, 110), rgb_from_hex(BG));
    assert_eq!(fb.get_pixel(101, 110), c.pants);
    assert_eq!(fb.get_pixel(101, 111), c.pants);
}

#[test]
fn chest_label_is_painted_on_the_torso() {
    let mut fb = frame();
    let mut s = sim("a", "alice", SimState::Seated, "default");
    s.session_label = Some("A".into());
    draw_sim(&mut fb, &s, pose(200, 200));
    // Centre (100, 100): torso rows 96..=108, label box from (99, 100).
    assert_eq!(fb.get_pixel(100, 100), Rgb(0xff, 0xff, 0xff));
    assert_eq!(fb.get_pixel(99, 100), Rgb(0, 0, 0));
}

#[test]
fn paint_order_goes_north_to_south_then_by_id() {
    let sims = vec![
        sim("b", "u", SimState::Seated, "default"),
        sim("gone", "u", SimState::Gone, "default"),
        sim("a", "u", SimState::Seated, "default"),
        sim("z", "u", SimState::WalkingIn, "default"),
    ];
    let poses = vec![pose(0, 10), pose(0, 0), pose(0, 10), pose(0, 5)];
    assert_eq!(paint_order(&sims, &poses), vec![3, 2, 0]);
}

#[test]
fn southern_bodies_cover_northern_ones() {
    let sims = vec![
        sim("south", "bob", SimState::Seated, "default"),
        sim("north", "alice", SimState::Seated, "default"),
        sim("gone", "carol", SimState::Gone, "default"),
    ];
    let poses = vec![pose(200, 206), pose(200, 200), pose(400, 200)];
    let mut fb = frame();
    draw_sims(&mut fb, &sims, &poses);
    // The northern shadow row 111 lies under the southern torso.
    assert_eq!(fb.get_pixel(95, 111), sim_colors("bob").shirt);
    assert_eq!(fb.get_pixel(94, 111), rgb_from_hex(SHADOW));
    // The northern hair shows above the southern head.
    assert_eq!(fb.get_pixel(96, 87), sim_colors("alice").hair);
    // The sprite that is gone is not drawn.
    assert_eq!(fb.get_pixel(200, 100), rgb_from_hex(BG));
}
