use workplacesim::render::geometry::{
    corridor_ys, desk_cols, desk_rows, desk_seats, door, lab_door, lab_room, lab_stations,
    meeting_door, meeting_room, meeting_seats, open_room, windows, Point, Rect,
    APPROACH_OFFSET_Y, HALLWAY_LEFT_X, HALLWAY_RIGHT_X, WORLD_H, WORLD_W,
};

#[test]
fn world_dimensions() {
    assert_eq!(WORLD_W, 1280);
    assert_eq!(WORLD_H, 640);
}

#[test]
fn approach_offset_matches_literal() {
    assert_eq!(APPROACH_OFFSET_Y, 76);
}

#[test]
fn hallway_xs_match_literal() {
    assert_eq!(HALLWAY_LEFT_X, 130);
    assert_eq!(HALLWAY_RIGHT_X, 776);
}

#[test]
fn corridor_ys_match_literal() {
    assert_eq!(corridor_ys(), [125, 256, 416, 576]);
}

#[test]
fn corridor_ys_strictly_ascending() {
    for w in corridor_ys().windows(2) {
        assert!(w[0] < w[1], "{} !< {}", w[0], w[1]);
    }
}

#[test]
fn corridor_ys_follow_desk_approach() {
    for (i, &row_y) in desk_rows().iter().enumerate() {
        assert_eq!(corridor_ys()[i + 1], row_y + APPROACH_OFFSET_Y);
    }
}

#[test]
fn hallway_topology() {
    assert!(open_room().x < HALLWAY_LEFT_X);
    assert!(HALLWAY_LEFT_X < HALLWAY_RIGHT_X);
    assert!(HALLWAY_RIGHT_X < open_room().right());
    for &c in &desk_cols() {
        assert!(HALLWAY_LEFT_X < c, "desk col {c} not east of HALLWAY_LEFT_X");
        assert!(c < HALLWAY_RIGHT_X, "desk col {c} not west of HALLWAY_RIGHT_X");
    }
}

#[test]
fn desk_count_twelve() {
    assert_eq!(desk_cols().len() * desk_rows().len(), 12);
    assert_eq!(desk_seats().len(), 12);
}

#[test]
fn meeting_seat_count_four() {
    assert_eq!(meeting_seats().len(), 4);
}

#[test]
fn lab_station_count_three() {
    assert_eq!(lab_stations().len(), 3);
}

#[test]
fn every_desk_approach_on_corridor_y() {
    for d in desk_seats() {
        assert!(
            corridor_ys().contains(&d.approach_y),
            "desk approach {} missing from CORRIDOR_YS",
            d.approach_y
        );
    }
}

#[test]
fn rect_center_and_contains() {
    let r = Rect::new(10, 20, 40, 60);
    assert_eq!(r.right(), 50);
    assert_eq!(r.bottom(), 80);
    assert_eq!(r.center(), Point::new(30, 50));
    assert!(r.contains(Point::new(10, 20)));
    assert!(r.contains(Point::new(50, 80)));
    assert!(!r.contains(Point::new(9, 20)));
    assert!(!r.contains(Point::new(10, 81)));
}

#[test]
fn rect_center_rounds_toward_zero() {
    assert_eq!(Rect::new(0, 0, 5, 3).center(), Point::new(2, 1));
    assert_eq!(Rect::new(0, 0, -5, -3).center(), Point::new(-2, -1));
}

#[test]
fn meeting_room_bounds() {
    assert_eq!(meeting_room().x, 824);
    assert_eq!(meeting_room().y, 72);
    assert_eq!(meeting_room().w, 360);
    assert_eq!(meeting_room().h, 242);
}

#[test]
fn lab_room_bounds() {
    assert_eq!(lab_room().x, 824);
    assert_eq!(lab_room().y, 326);
    assert_eq!(lab_room().w, 360);
    assert_eq!(lab_room().h, 258);
}

#[test]
fn doors_match_js() {
    assert_eq!(door().x, 96);
    assert_eq!(door().y, 328);
    assert_eq!(meeting_door().x, 800);
    assert_eq!(meeting_door().y, 193);
    assert_eq!(lab_door().x, 800);
    assert_eq!(lab_door().y, 455);
}

#[test]
fn windows_have_nine_entries() {
    assert_eq!(windows().len(), 9);
}
