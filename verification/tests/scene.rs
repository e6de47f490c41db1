use workplacesim::render::classify::Room;
use workplacesim::render::fb::{nearest_neighbour_blit_2x, scaled_blit_u32};
use workplacesim::render::fit::compute_scale_fit;
use workplacesim::render::frame::RenderFrame;
use workplacesim::render::geometry::Point;
use workplacesim::render::palette::{
    rgb_from_hex, Rgb, BG, CHAIR, DESK_TOP, FLOOR_A, FLOOR_B, FLOOR_LAB_A, FLOOR_LAB_B, FLOOR_LINE,
    FLOOR_MEETING_A, FLOOR_MEETING_B, LAB_GRID, WALL, WALL_HI, WHITEBOARD_BODY, WINDOW_FRAME, WINDOW_GLASS,
};
use workplacesim::render::scene::{
    draw_desks, draw_floor, draw_lab_room, draw_meeting_room, draw_static_background, draw_walls, draw_windows, Mark,
    Shape,
};
use workplacesim::render::scene_text::{format_uptime, pick_whiteboard_agent, short_path, truncate};
use workplacesim::render::sim_store::{SimAnim, SimState};
use workplacesim::render::{RENDER_H, RENDER_W};
use workplacesim::state::Agent;

fn frame() -> RenderFrame {
    let mut fb = RenderFrame::new(RENDER_W, RENDER_H);
    fb.clear(rgb_from_hex(BG));
    fb
}

#[test]
fn rgb_from_hex_splits_channels() {
    assert_eq!(rgb_from_hex(0x123456), Rgb(0x12, 0x34, 0x56));
    assert_eq!(rgb_from_hex(0x0b0d12), Rgb(0x0b, 0x0d, 0x12));
    assert_eq!(rgb_from_hex(0xffffff), Rgb(0xff, 0xff, 0xff));
}

#[test]
fn floor_tiles_alternate_and_lines_cross() {
    let mut fb = frame();
    draw_floor(&mut fb);
    // Open room: 8 x 16 strips from (48, 36); a dark line every 16 rows.
    assert_eq!(fb.get_pixel(48, 36), rgb_from_hex(FLOOR_B));
    assert_eq!(fb.get_pixel(56, 36), rgb_from_hex(FLOOR_A));
    assert_eq!(fb.get_pixel(48, 51), rgb_from_hex(FLOOR_B));
    assert_eq!(fb.get_pixel(48, 52), rgb_from_hex(FLOOR_LINE));
    assert_eq!(fb.get_pixel(56, 53), rgb_from_hex(FLOOR_B));
    // Meeting carpet and lab tiles, 16 x 16.
    assert_eq!(fb.get_pixel(412, 36), rgb_from_hex(FLOOR_MEETING_B));
    assert_eq!(fb.get_pixel(428, 37), rgb_from_hex(FLOOR_MEETING_A));
    assert_eq!(fb.get_pixel(413, 164), rgb_from_hex(FLOOR_LAB_B));
    assert_eq!(fb.get_pixel(430, 165), rgb_from_hex(FLOOR_LAB_A));
    assert_eq!(fb.get_pixel(428, 170), rgb_from_hex(LAB_GRID));
    assert_eq!(fb.get_pixel(420, 179), rgb_from_hex(LAB_GRID));
    // Outside the rooms nothing is painted.
    assert_eq!(fb.get_pixel(10, 10), rgb_from_hex(BG));
}

#[test]
fn walls_frame_rooms_and_doors_are_gaps() {
    let mut fb = frame();
    draw_walls(&mut fb);
    assert_eq!(fb.get_pixel(45, 33), rgb_from_hex(WALL_HI));
    assert_eq!(fb.get_pixel(46, 34), rgb_from_hex(WALL));
    assert_eq!(fb.get_pixel(100, 293), rgb_from_hex(WALL));
    // West door and the two inner doors are punched through.
    assert_eq!(fb.get_pixel(46, 170), rgb_from_hex(BG));
    assert_eq!(fb.get_pixel(401, 90), rgb_from_hex(BG));
    assert_eq!(fb.get_pixel(401, 220), rgb_from_hex(BG));
    assert_eq!(fb.get_pixel(401, 60), rgb_from_hex(WALL));
}

#[test]
fn furniture_lands_where_the_layout_says() {
    let mut fb = frame();
    draw_desks(&mut fb);
    draw_meeting_room(&mut fb);
    draw_lab_room(&mut fb);
    // First desk at world (200, 180): slab from render (76, 78).
    assert_eq!(fb.get_pixel(78, 80), rgb_from_hex(DESK_TOP));
    // Its chair centred at render (100, 109).
    assert_eq!(fb.get_pixel(103, 109), rgb_from_hex(CHAIR));
    // Whiteboard body in the meeting room.
    assert_eq!(fb.get_pixel(460, 45), rgb_from_hex(WHITEBOARD_BODY));
    // Nothing painted far from the furniture.
    assert_eq!(fb.get_pixel(5, 5), rgb_from_hex(BG));
}

#[test]
fn static_background_paints_windows_over_spill() {
    let mut fb = RenderFrame::new(RENDER_W, RENDER_H);
    let spill = vec![Mark { shape: Shape::Dot(120, 40), color: Rgb(1, 2, 3) }];
    draw_static_background(&mut fb, &spill);
    assert_eq!(fb.get_pixel(0, 0), rgb_from_hex(BG));
    assert_eq!(fb.get_pixel(120, 40), Rgb(1, 2, 3));
    // The window at world (240, 69) sits in the north wall, which is drawn
    // after the windows.
    assert_eq!(fb.get_pixel(110, 33), rgb_from_hex(WALL_HI));
    assert_eq!(fb.get_pixel(111, 34), rgb_from_hex(WALL));
}

#[test]
fn format_uptime_golden() {
    assert_eq!(format_uptime(0), "up 0h 0m");
    assert_eq!(format_uptime(42 * 60_000), "up 0h 42m");
    assert_eq!(format_uptime(3_600_000 + 42 * 60_000), "up 1h 42m");
    assert_eq!(format_uptime(25 * 3_600_000), "up 25h 0m");
}

#[test]
fn short_path_one_level() {
    assert_eq!(short_path("/Users/laek/source/workplacesim/src/main.rs"), "src/main.rs");
    assert_eq!(short_path("main.rs"), "main.rs");
    assert_eq!(short_path(""), "");
    assert_eq!(short_path("a/b"), "a/b");
    assert_eq!(short_path("foo\\bar\\baz.txt"), "bar/baz.txt");
}

#[test]
fn short_path_ignores_trailing_and_repeated_separators() {
    assert_eq!(short_path("a//b///"), "a/b");
    assert_eq!(short_path("///"), "");
    assert_eq!(short_path("/x/"), "x");
}

#[test]
fn truncate_with_ellipsis() {
    assert_eq!(truncate("hi", 5), "hi");
    assert_eq!(truncate("hello", 5), "hello");
    assert_eq!(truncate("hellothere", 5), "hell~");
    assert_eq!(truncate("abc", 0), "~");
}

type Motion = (f32, f32, f32);

fn sim(id: &str, room: Room, state: SimState) -> SimAnim<Motion> {
    SimAnim {
        agent_id: id.into(),
        session_id: None,
        session_label: None,
        user: "u".into(),
        permission_mode: "default".into(),
        is_lab: false,
        motion: (0.0, 0.0, 0.0),
        path: vec![Point::new(10, 10)],
        seat: None,
        room,
        state,
        spawned_at_ms: 0,
        seated_at_ms: Some(0),
        seated_since_ms: Some(0),
        overflow_hash: 0,
        last_footstep_ms: 0,
    }
}

#[test]
fn pick_whiteboard_prefers_main_session_agent() {
    let sims = vec![sim("sub", Room::Meeting, SimState::Seated), sim("sess", Room::Meeting, SimState::Seated)];
    let main = Agent {
        agent_id: "sess".into(),
        agent_type: "main".into(),
        session_prompt: Some("from main".into()),
        ..Default::default()
    };
    let other = Agent {
        agent_id: "sub".into(),
        agent_type: "verifier".into(),
        session_prompt: Some("from sub".into()),
        ..Default::default()
    };
    let agents = vec![other, main];
    let picked = pick_whiteboard_agent(&sims, &agents, "main").unwrap();
    assert_eq!(picked.agent_id, "sess");
    // Without a preferred agent the first candidate wins.
    let picked = pick_whiteboard_agent(&sims, &agents, "nobody").unwrap();
    assert_eq!(picked.agent_id, "sub");
}

#[test]
fn pick_whiteboard_none_when_not_seated() {
    let sims = vec![sim("sub", Room::Meeting, SimState::WalkingIn)];
    let a = Agent { agent_id: "sub".into(), session_prompt: Some("p".into()), ..Default::default() };
    let agents = vec![a];
    assert!(pick_whiteboard_agent(&sims, &agents, "main").is_none());
}

#[test]
fn pick_whiteboard_skips_empty_prompts_and_other_rooms() {
    let sims = vec![sim("a", Room::Desk, SimState::Seated), sim("b", Room::Meeting, SimState::Seated)];
    let agents = vec![
        Agent { agent_id: "a".into(), session_prompt: Some("desk".into()), ..Default::default() },
        Agent { agent_id: "b".into(), session_prompt: Some(String::new()), ..Default::default() },
    ];
    assert!(pick_whiteboard_agent(&sims, &agents, "main").is_none());
}

#[test]
fn scaled_blit_u32_matches_2x_reference() {
    let mut src = RenderFrame::new(4, 3);
    for y in 0..3 {
        for x in 0..4 {
            let r = (x as u8) * 64;
            let g = (y as u8) * 80;
            let b = ((x + y) as u8) * 32;
            src.set_pixel(x, y, Rgb(r, g, b));
        }
    }
    let dst_w = 8;
    let dst_h = 6;
    let mut reference = vec![0u32; dst_w * dst_h];
    nearest_neighbour_blit_2x(&src, &mut reference);
    let mut actual = vec![0u32; dst_w * dst_h];
    let fit = compute_scale_fit(4, 3, dst_w as i32, dst_h as i32);
    scaled_blit_u32(&src, &mut actual, dst_w as u32, &fit);
    assert_eq!(actual, reference, "scaled_blit_u32 must agree with nearest_neighbour_blit_2x on exact 2x scale");
}

#[test]
fn scaled_blit_u32_letterboxes_mismatched_aspect() {
    let mut src = RenderFrame::new(2, 1);
    src.set_pixel(0, 0, Rgb(0xff, 0, 0));
    src.set_pixel(1, 0, Rgb(0, 0, 0xff));
    let dst_w = 4;
    let dst_h = 4;
    let mut dst = vec![0u32; dst_w * dst_h];
    let fit = compute_scale_fit(2, 1, dst_w as i32, dst_h as i32);
    scaled_blit_u32(&src, &mut dst, dst_w as u32, &fit);
    let red = 0xffff_0000u32;
    let blue = 0xff00_00ffu32;
    assert_eq!(&dst[0..4], &[0, 0, 0, 0]);
    for row in [1usize, 2] {
        let off = row * dst_w;
        assert_eq!(dst[off], red);
        assert_eq!(dst[off + 1], red);
        assert_eq!(dst[off + 2], blue);
        assert_eq!(dst[off + 3], blue);
    }
    assert_eq!(&dst[3 * dst_w..4 * dst_w], &[0, 0, 0, 0]);
}

#[test]
fn scaled_blit_u32_clears_previous_contents() {
    let mut src = RenderFrame::new(2, 2);
    src.set_pixel(0, 0, Rgb(0xff, 0xff, 0xff));
    src.set_pixel(1, 0, Rgb(0xff, 0xff, 0xff));
    src.set_pixel(0, 1, Rgb(0xff, 0xff, 0xff));
    src.set_pixel(1, 1, Rgb(0xff, 0xff, 0xff));
    let dst_w = 2;
    let dst_h = 2;
    let mut dst = vec![0xdead_beefu32; dst_w * dst_h];
    let fit = compute_scale_fit(2, 2, dst_w as i32, dst_h as i32);
    scaled_blit_u32(&src, &mut dst, dst_w as u32, &fit);
    let white = 0xffff_ffffu32;
    assert!(dst.iter().all(|&p| p == white), "dirty bits survived: {dst:?}");
}

#[test]
fn window_frames_have_glass_and_a_mullion() {
    let mut fb = frame();
    draw_windows(&mut fb, &Vec::new());
    assert_eq!(fb.get_pixel(110, 33), rgb_from_hex(WINDOW_FRAME));
    assert_eq!(fb.get_pixel(111, 34), rgb_from_hex(WINDOW_GLASS));
    assert_eq!(fb.get_pixel(120, 34), rgb_from_hex(WINDOW_FRAME));
    assert_eq!(fb.get_pixel(129, 35), rgb_from_hex(WINDOW_FRAME));
    assert_eq!(fb.get_pixel(130, 34), rgb_from_hex(BG));
}
