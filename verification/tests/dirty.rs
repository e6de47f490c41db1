use workplacesim::render::dirty::{
    collect_dynamics, compute_frame_dirties, merge_rects, DirtyTracker, SimSpot, HALO_MAX_R,
};
use workplacesim::render::fx::{Halo, Tether};
use workplacesim::render::geometry::{Point, Rect};

fn spot(id: &str, x: i32, y: i32) -> SimSpot {
    SimSpot { agent_id: id.to_string(), x, y }
}

fn none_p() -> Vec<Point> {
    Vec::new()
}

#[test]
fn merge_touching_rects() {
    let a = Rect::new(0, 0, 10, 10);
    let b = Rect::new(10, 0, 10, 10);
    let m = merge_rects(vec![a, b]);
    assert_eq!(m.len(), 1);
    assert_eq!(m[0], Rect::new(0, 0, 20, 10));
}

#[test]
fn merge_overlapping_rects() {
    let a = Rect::new(0, 0, 10, 10);
    let b = Rect::new(5, 5, 10, 10);
    let m = merge_rects(vec![a, b]);
    assert_eq!(m.len(), 1);
    assert_eq!(m[0], Rect::new(0, 0, 15, 15));
}

#[test]
fn merge_disjoint_rects_keeps_both() {
    let a = Rect::new(0, 0, 10, 10);
    let b = Rect::new(50, 50, 10, 10);
    let m = merge_rects(vec![a, b]);
    assert_eq!(m.len(), 2);
}

#[test]
fn merge_chain_of_rects_collapses_to_one() {
    let a = Rect::new(0, 0, 10, 10);
    let b = Rect::new(10, 0, 10, 10);
    let c = Rect::new(20, 0, 10, 10);
    let m = merge_rects(vec![a, b, c]);
    assert_eq!(m.len(), 1);
    assert_eq!(m[0], Rect::new(0, 0, 30, 10));
}

#[test]
fn merge_drops_zero_area_rects() {
    let a = Rect::new(0, 0, 0, 0);
    let b = Rect::new(5, 5, 5, 0);
    let c = Rect::new(20, 20, 10, 10);
    let m = merge_rects(vec![a, b, c]);
    assert_eq!(m.len(), 1);
    assert_eq!(m[0], c);
}

#[test]
fn merge_of_a_merged_set_changes_nothing() {
    let m = merge_rects(vec![
        Rect::new(0, 0, 10, 10),
        Rect::new(11, 0, 10, 10),
        Rect::new(100, 100, 5, 5),
        Rect::new(104, 104, 5, 5),
    ]);
    assert_eq!(merge_rects(m.clone()), m);
    // Gap of two pixels: the expand-by-one rule does not join them.
    assert_eq!(merge_rects(vec![Rect::new(0, 0, 10, 10), Rect::new(12, 0, 3, 3)]).len(), 2);
}

#[test]
fn compute_frame_dirties_empty_on_empty_stores() {
    let d = compute_frame_dirties(&Vec::new(), &none_p(), &none_p(), &Vec::new(), &Vec::new(), &[]);
    assert!(d.is_empty(), "empty stores + empty last = no dirty rects");
}

#[test]
fn compute_frame_dirties_covers_sim_position() {
    let sims = vec![spot("a", 200, 200)];
    let d = compute_frame_dirties(&sims, &none_p(), &none_p(), &Vec::new(), &Vec::new(), &[]);
    assert_eq!(d.len(), 1);
    let r = d[0];
    assert!(r.contains(Point::new(100, 100)), "rect {:?} should contain (100,100)", r);
}

#[test]
fn compute_frame_dirties_covers_sim_positions_and_last_frame() {
    let sims = vec![spot("a", 200, 100)];
    let last = vec![Rect::new(40, 40, 20, 20)];
    let d = compute_frame_dirties(&sims, &none_p(), &none_p(), &Vec::new(), &Vec::new(), &last);
    assert!(!d.is_empty(), "at least one rect");
    let covers_old = d.iter().any(|r| r.contains(Point::new(50, 50)));
    let covers_new = d.iter().any(|r| r.contains(Point::new(100, 50)));
    assert!(covers_old, "must cover old AABB at (50,50)");
    assert!(covers_new, "must cover new sim at (100,50)");
}

#[test]
fn compute_frame_dirties_includes_footstep() {
    let steps = vec![Point::new(400, 300)];
    let d = compute_frame_dirties(&Vec::new(), &steps, &none_p(), &Vec::new(), &Vec::new(), &[]);
    assert_eq!(d.len(), 1);
    assert!(d[0].contains(Point::new(200, 150)));
}

#[test]
fn compute_frame_dirties_includes_mote() {
    let motes = vec![Point::new(400, 300)];
    let d = compute_frame_dirties(&Vec::new(), &none_p(), &motes, &Vec::new(), &Vec::new(), &[]);
    assert_eq!(d.len(), 1);
    assert!(d[0].contains(Point::new(200, 150)));
}

#[test]
fn compute_frame_dirties_includes_halo() {
    let sims = vec![spot("a", 400, 300)];
    let halos = vec![Halo { agent_id: "a".to_string(), born_ms: 0 }];
    let d = compute_frame_dirties(&sims, &none_p(), &none_p(), &Vec::new(), &halos, &[]);
    assert_eq!(d.len(), 1);
    let r = d[0];
    assert!(r.w >= HALO_MAX_R * 2, "halo AABB width {} < {}", r.w, HALO_MAX_R * 2);
}

#[test]
fn compute_frame_dirties_skips_tether_with_missing_endpoint() {
    let sims = vec![spot("parent", 100, 100)];
    let tethers = vec![Tether { parent: "parent".to_string(), child: "missing".to_string(), born_ms: 0 }];
    let d = compute_frame_dirties(&sims, &none_p(), &none_p(), &tethers, &Vec::new(), &[]);
    assert_eq!(d.len(), 1);
}

#[test]
fn tether_between_two_sims_spans_both() {
    let sims = vec![spot("p", 100, 100), spot("c", 700, 500)];
    let tethers = vec![Tether { parent: "p".to_string(), child: "c".to_string(), born_ms: 0 }];
    let boxes = collect_dynamics(&sims, &none_p(), &none_p(), &tethers, &Vec::new());
    assert_eq!(boxes.len(), 3);
    assert_eq!(boxes[2], Rect::new(47, 47, 306, 206));
}

#[test]
fn clip_removes_out_of_viewport_rects() {
    let sims = vec![spot("out", 10_000, 10_000)];
    let d = compute_frame_dirties(&sims, &none_p(), &none_p(), &Vec::new(), &Vec::new(), &[]);
    assert!(d.is_empty());
}

#[test]
fn dirty_tracker_saves_and_unions_last() {
    let mut tracker = DirtyTracker::new();
    let mut sims = vec![spot("a", 100, 100)];
    let frame1 = tracker.step(&sims, &none_p(), &none_p(), &Vec::new(), &Vec::new());
    assert_eq!(frame1.len(), 1);

    sims[0].x = 600;
    let frame2 = tracker.step(&sims, &none_p(), &none_p(), &Vec::new(), &Vec::new());
    let covers_old = frame2.iter().any(|r| r.contains(Point::new(50, 50)));
    let covers_new = frame2.iter().any(|r| r.contains(Point::new(300, 50)));
    assert!(covers_old);
    assert!(covers_new);

    let frame3 = tracker.step(&sims, &none_p(), &none_p(), &Vec::new(), &Vec::new());
    assert_eq!(frame3.len(), 1);
    assert!(frame3[0].contains(Point::new(300, 50)));
    assert!(!frame3[0].contains(Point::new(50, 50)));
    assert_eq!(tracker.last().len(), 1);
}

#[test]
fn sim_box_matches_sprite_bounds() {
    let boxes = collect_dynamics(&vec![spot("a", 201, 99)], &none_p(), &none_p(), &Vec::new(), &Vec::new());
    // (201, 99) halves to (100, 49); the sprite box reaches 10 left, 14 up.
    assert_eq!(boxes, vec![Rect::new(90, 35, 20, 26)]);
}

#[test]
fn merge_leaves_a_distant_rect_alone() {
    let a = Rect::new(0, 0, 10, 10);
    let b = Rect::new(10, 0, 10, 10);
    let c = Rect::new(100, 100, 10, 10);
    let m = merge_rects(vec![a, b, c]);
    assert_eq!(m, vec![Rect::new(0, 0, 20, 10), c]);
}

#[test]
fn merge_takes_rects_far_from_the_frame() {
    let a = Rect::new(2_000_000_000, 0, 10, 10);
    let b = Rect::new(2_000_000_005, 5, 10, 10);
    let m = merge_rects(vec![a, b]);
    assert_eq!(m, vec![Rect::new(2_000_000_000, 0, 15, 15)]);
}

#[test]
fn merge_keeps_far_apart_rects_at_both_ends_of_the_range() {
    let a = Rect::new(2_000_000_000, 0, 10, 10);
    let c = Rect::new(-2_000_000_000, 0, 10, 10);
    let m = merge_rects(vec![a, c]);
    assert_eq!(m, vec![a, c]);
}
