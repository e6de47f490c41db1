use workplacesim::render::bodies::Pose;
use workplacesim::render::classify::Room;
use workplacesim::render::frame::RenderFrame;
use workplacesim::render::fx::FxStore;
use workplacesim::render::geometry::Point;
use workplacesim::render::glyph::GlyphKind;
use workplacesim::render::palette::{rgb_from_hex, Rgb, BG, GLYPH_ERR, GLYPH_PLAN, GLYPH_WALK};
use workplacesim::render::sim_store::{SimAnim, SimState};
use workplacesim::render::sprites::{draw_glyph, draw_glyphs, draw_session_label, label_glyph, sprite};
use workplacesim::render::{RENDER_H, RENDER_W};
use workplacesim::state::Agent;

fn frame() -> RenderFrame {
    let mut fb = RenderFrame::new(RENDER_W, RENDER_H);
    fb.clear(rgb_from_hex(BG));
    fb
}

type Motion = (f32, f32);

fn pose(x: i32, y: i32) -> Pose {
    Pose { x, y, bob: 0, swing: 0 }
}

fn sim(id: &str, state: SimState, mode: &str) -> SimAnim<Motion> {
    SimAnim {
        agent_id: id.into(),
        session_id: None,
        session_label: None,
        user: "u".into(),
        permission_mode: mode.into(),
        is_lab: false,
        motion: (0.0, 0.0),
        path: vec![Point::new(10, 10)],
        seat: None,
        room: Room::Desk,
        state,
        spawned_at_ms: 0,
        seated_at_ms: Some(0),
        seated_since_ms: Some(1_000),
        overflow_hash: 0,
        last_footstep_ms: 0,
    }
}

#[test]
fn sprite_pictures_have_their_sizes_and_colours() {
    let (art, c) = sprite(GlyphKind::Error);
    assert_eq!(art.len(), 6);
    assert_eq!(art[0].len(), 2);
    assert_eq!(c, rgb_from_hex(GLYPH_ERR));
    let (art, _) = sprite(GlyphKind::Idle);
    assert_eq!((art.len(), art[0].len()), (7, 8));
    let (art, c) = sprite(GlyphKind::Walking);
    assert_eq!((art.len(), art[0].len()), (2, 7));
    assert_eq!(c, rgb_from_hex(GLYPH_WALK));
}

#[test]
fn error_glyph_is_a_bar_and_a_dot_centred_on_the_anchor() {
    let mut fb = frame();
    draw_glyph(&mut fb, GlyphKind::Error, 100, 50);
    let red = rgb_from_hex(GLYPH_ERR);
    let bg = rgb_from_hex(BG);
    assert_eq!(fb.get_pixel(99, 50), red);
    assert_eq!(fb.get_pixel(100, 53), red);
    assert_eq!(fb.get_pixel(99, 54), bg);
    assert_eq!(fb.get_pixel(100, 54), bg);
    assert_eq!(fb.get_pixel(100, 55), red);
    assert_eq!(fb.get_pixel(98, 50), bg);
    assert_eq!(fb.get_pixel(101, 50), bg);
    assert_eq!(fb.get_pixel(99, 56), bg);
}

#[test]
fn label_glyph_knows_the_label_pool_only() {
    let a = label_glyph('A').expect("A has a picture");
    assert_eq!(a.len(), 5);
    assert_eq!(a[0], vec!['.', '#', '.']);
    assert_eq!(a[4], vec!['#', '.', '#']);
    assert!(label_glyph('a').is_none());
    assert!(label_glyph('0').is_none());
    assert!(label_glyph('I').is_none());
    assert!(label_glyph('O').is_none());
    assert_eq!(label_glyph('7').expect("7")[2], vec!['.', '#', '.']);
}

#[test]
fn session_label_is_white_with_a_black_outline() {
    let mut fb = frame();
    draw_session_label(&mut fb, Some("A1"), 100, 50, 13);
    let white = Rgb(0xff, 0xff, 0xff);
    let black = Rgb(0, 0, 0);
    let bg = rgb_from_hex(BG);
    // Glyph box: columns 99..=101, rows 54..=58.
    assert_eq!(fb.get_pixel(100, 54), white);
    assert_eq!(fb.get_pixel(99, 54), black);
    assert_eq!(fb.get_pixel(100, 53), black);
    assert_eq!(fb.get_pixel(99, 55), white);
    assert_eq!(fb.get_pixel(100, 55), black);
    assert_eq!(fb.get_pixel(98, 55), black);
    assert_eq!(fb.get_pixel(97, 55), bg);
    // Diagonals of the top cell stay clear.
    assert_eq!(fb.get_pixel(99, 53), bg);
    assert_eq!(fb.get_pixel(101, 53), bg);
}

#[test]
fn session_label_without_a_picture_draws_nothing() {
    let mut fb = frame();
    draw_session_label(&mut fb, None, 100, 50, 13);
    draw_session_label(&mut fb, Some(""), 100, 50, 13);
    draw_session_label(&mut fb, Some("a"), 100, 50, 13);
    let bg = rgb_from_hex(BG);
    for y in 45..65 {
        for x in 90..110 {
            assert_eq!(fb.get_pixel(x, y), bg);
        }
    }
}

#[test]
fn glyphs_sit_above_live_sprites_only() {
    let mut fb = frame();
    let sims = vec![
        sim("walker", SimState::WalkingIn, "default"),
        sim("gone", SimState::Gone, "plan"),
        sim("planner", SimState::Seated, "plan"),
    ];
    let poses = vec![pose(200, 200), pose(400, 200), pose(600, 200)];
    let agents: Vec<Agent> = Vec::new();
    let fx: FxStore<Motion> = FxStore::new();
    draw_glyphs(&mut fb, &sims, &poses, &agents, &fx, 2_000, 5_000);
    let bg = rgb_from_hex(BG);
    let walk = rgb_from_hex(GLYPH_WALK);
    let plan = rgb_from_hex(GLYPH_PLAN);
    // Walking dots: 7 wide from x = 97, top row 24 above the anchor.
    assert_eq!(fb.get_pixel(97, 76), walk);
    assert_eq!(fb.get_pixel(98, 76), bg);
    assert_eq!(fb.get_pixel(103, 77), walk);
    // Nothing over the sprite that is gone.
    for y in 70..90 {
        for x in 190..210 {
            assert_eq!(fb.get_pixel(x, y), bg);
        }
    }
    // Clipboard: 6 wide from x = 297.
    assert_eq!(fb.get_pixel(299, 76), plan);
    assert_eq!(fb.get_pixel(297, 76), bg);
    assert_eq!(fb.get_pixel(297, 78), plan);
}
