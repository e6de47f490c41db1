use workplacesim::render::geometry::{
    desk_seats, door, lab_queue_spots, lab_stations, meeting_queue_spots, meeting_seats,
    queue_spots, Point, HALLWAY_LEFT_X, HALLWAY_RIGHT_X, OUTSIDE_X,
};
use workplacesim::render::routing::{
    compute_route, nearest_corridor_y, on_corridor, path_between_hall_nodes, path_from_door_to,
    path_to_door_from, Target,
};

#[test]
fn nearest_corridor_y_snaps() {
    assert_eq!(nearest_corridor_y(125), 125);
    assert_eq!(nearest_corridor_y(256), 256);
    assert_eq!(nearest_corridor_y(180), 125);
    assert_eq!(nearest_corridor_y(200), 256);
    assert_eq!(nearest_corridor_y(-1000), 125);
    assert_eq!(nearest_corridor_y(5000), 576);
}

#[test]
fn on_corridor_membership() {
    assert!(on_corridor(125));
    assert!(on_corridor(256));
    assert!(on_corridor(416));
    assert!(on_corridor(576));
    assert!(!on_corridor(100));
    assert!(!on_corridor(300));
}

#[test]
fn path_between_hall_nodes_same_point_empty() {
    let p = Point::new(HALLWAY_LEFT_X, 256);
    assert_eq!(path_between_hall_nodes(p, p), vec![]);
}

#[test]
fn path_between_hall_nodes_same_column_just_target() {
    let a = Point::new(HALLWAY_LEFT_X, 125);
    let b = Point::new(HALLWAY_LEFT_X, 576);
    assert_eq!(path_between_hall_nodes(a, b), vec![b]);
}

#[test]
fn path_between_hall_nodes_cross_column_snaps() {
    let a = Point::new(HALLWAY_LEFT_X, 300);
    let b = Point::new(HALLWAY_RIGHT_X, 256);
    assert_eq!(
        path_between_hall_nodes(a, b),
        vec![
            Point::new(HALLWAY_LEFT_X, 256),
            Point::new(HALLWAY_RIGHT_X, 256),
        ]
    );
}

#[test]
fn path_between_hall_nodes_cross_column_both_on_corridor() {
    let a = Point::new(HALLWAY_LEFT_X, 125);
    let b = Point::new(HALLWAY_RIGHT_X, 576);
    assert_eq!(
        path_between_hall_nodes(a, b),
        vec![
            Point::new(HALLWAY_RIGHT_X, 125),
            Point::new(HALLWAY_RIGHT_X, 576),
        ]
    );
}

#[test]
fn path_from_door_to_desk_first_row() {
    let desk = desk_seats()[0];
    let t = Target::Desk(desk);
    let r = path_from_door_to(&t);
    assert_eq!(
        r,
        vec![
            Point::new(130, 328),
            Point::new(130, 256),
            Point::new(200, 256),
            Point::new(200, 224),
        ]
    );
}

#[test]
fn path_from_door_to_meeting_first_seat() {
    let s = meeting_seats()[0];
    let t = Target::Meeting(s);
    let r = path_from_door_to(&t);
    assert_eq!(
        r,
        vec![
            Point::new(130, 328),
            Point::new(130, 256),
            Point::new(776, 256),
            Point::new(776, 193),
            Point::new(824 + 24, 193),
            Point::new(944, 127),
            Point::new(944, 155),
        ]
    );
}

#[test]
fn path_from_door_to_lab_first_station() {
    let st = lab_stations()[0];
    let t = Target::Lab(st);
    let r = path_from_door_to(&t);
    assert_eq!(st.seat_x, 894);
    assert_eq!(st.seat_y, 426);
    assert_eq!(st.approach_x, 894);
    assert_eq!(st.approach_y, 458);
    assert_eq!(
        r,
        vec![
            Point::new(130, 328),
            Point::new(130, 256),
            Point::new(776, 256),
            Point::new(776, 416),
            Point::new(776, 455),
            Point::new(848, 455),
            Point::new(894, 458),
            Point::new(894, 426),
        ]
    );
}

#[test]
fn compute_route_outside_start_enters_via_door_then_to_desk() {
    let from = Point::new(OUTSIDE_X, door().y);
    let t = Target::Desk(desk_seats()[0]);
    let r = compute_route(from, &t);
    assert_eq!(
        r,
        vec![
            Point::new(98, 328),
            Point::new(130, 328),
            Point::new(130, 256),
            Point::new(200, 256),
            Point::new(200, 224),
        ]
    );
}

#[test]
fn compute_route_from_desk_to_meeting() {
    let from = Point::new(360, 224);
    let t = Target::Meeting(meeting_seats()[0]);
    let r = compute_route(from, &t);
    assert_eq!(
        r,
        vec![
            Point::new(360, 256),
            Point::new(130, 256),
            Point::new(776, 256),
            Point::new(776, 193),
            Point::new(848, 193),
            Point::new(944, 127),
            Point::new(944, 155),
        ]
    );
}

#[test]
fn compute_route_preserves_continuity() {
    let from = Point::new(360, 224);
    let t = Target::Desk(desk_seats()[5]);
    let r = compute_route(from, &t);
    assert!(!r.is_empty());
    let first = r[0];
    assert!(
        (first.x == from.x) || (first.y == from.y),
        "first hop {first:?} not axis-aligned with from {from:?}"
    );
}

#[test]
fn path_to_door_from_desk_ends_outside() {
    let t = Target::Desk(desk_seats()[0]);
    let r = path_to_door_from(&t);
    assert_eq!(r.last(), Some(&Point::new(OUTSIDE_X, door().y)));
}

fn assert_no_degenerate_steps(route: &[Point]) {
    for w in route.windows(2) {
        assert!(
            w[0] != w[1],
            "degenerate step {:?} == {:?} in route {:?}",
            w[0],
            w[1],
            route
        );
    }
}

fn a_hall_x(x: i32) -> bool {
    x == HALLWAY_LEFT_X || x == HALLWAY_RIGHT_X
}

fn assert_hall_transit_axis_aligned(route: &[Point]) {
    for w in route.windows(2) {
        if a_hall_x(w[0].x) && a_hall_x(w[1].x) {
            assert!(
                w[0].x == w[1].x || w[0].y == w[1].y,
                "hall-to-hall diagonal {:?} -> {:?}",
                w[0],
                w[1]
            );
        }
    }
}

#[test]
fn fixed_routes_never_cut_through_desks() {
    let desks = desk_seats();
    let samples: Vec<(Point, Target)> = vec![
        (Point::new(OUTSIDE_X, door().y), Target::Desk(desks[0])),
        (Point::new(OUTSIDE_X, door().y), Target::Desk(desks[11])),
        (Point::new(360, 224), Target::Desk(desks[7])),
    ];
    for (from, t) in samples {
        let r = compute_route(from, &t);
        assert_no_degenerate_steps(&r);
        assert!(!r.is_empty());
        for w in r.windows(2) {
            assert!(
                w[0].x == w[1].x || w[0].y == w[1].y,
                "desk route diagonal: {:?} -> {:?}",
                w[0],
                w[1]
            );
        }
    }
}

#[test]
fn meeting_and_lab_routes_no_degenerate_steps() {
    let meets = meeting_seats();
    let labs = lab_stations();
    let samples: Vec<(Point, Target)> = vec![
        (Point::new(OUTSIDE_X, door().y), Target::Meeting(meets[0])),
        (Point::new(OUTSIDE_X, door().y), Target::Lab(labs[2])),
        (Point::new(360, 224), Target::Meeting(meets[3])),
        (Point::new(680, 544), Target::Lab(labs[0])),
    ];
    for (from, t) in samples {
        let r = compute_route(from, &t);
        assert_no_degenerate_steps(&r);
        assert_hall_transit_axis_aligned(&r);
        assert!(!r.is_empty());
    }
}

fn all_targets() -> Vec<Target> {
    let mut out = Vec::new();
    for d in desk_seats() {
        out.push(Target::Desk(d));
    }
    for s in meeting_seats() {
        out.push(Target::Meeting(s));
    }
    for s in lab_stations() {
        out.push(Target::Lab(s));
    }
    for p in queue_spots() {
        out.push(Target::Queue(p));
    }
    for p in meeting_queue_spots() {
        out.push(Target::MeetingQueue(p));
    }
    for p in lab_queue_spots() {
        out.push(Target::LabQueue(p));
    }
    out
}

/// A grid of starting positions over the whole world.
fn sample_starts() -> Vec<Point> {
    let mut out = Vec::new();
    let mut x = 0;
    while x < 1280 {
        let mut y = 0;
        while y < 640 {
            out.push(Point::new(x, y));
            y += 29;
        }
        x += 37;
    }
    out
}

#[test]
fn hall_transit_axis_aligned() {
    let targets = all_targets();
    for from in sample_starts() {
        for t in &targets {
            let r = compute_route(from, t);
            assert_hall_transit_axis_aligned(&r);
        }
    }
}

#[test]
fn compute_route_no_degenerate_steps() {
    let targets = all_targets();
    for from in sample_starts() {
        for t in &targets {
            let r = compute_route(from, t);
            assert_no_degenerate_steps(&r);
        }
    }
}

#[test]
fn cross_hall_horizontal_on_corridor() {
    let targets = all_targets();
    for from in sample_starts() {
        for t in &targets {
            let r = compute_route(from, t);
            for w in r.windows(2) {
                let (a, b) = (w[0], w[1]);
                let hl_hr = (a.x == HALLWAY_LEFT_X && b.x == HALLWAY_RIGHT_X)
                    || (a.x == HALLWAY_RIGHT_X && b.x == HALLWAY_LEFT_X);
                if hl_hr && a.y == b.y {
                    assert!(on_corridor(a.y), "horizontal hall-to-hall hop at y={} off corridor", a.y);
                }
            }
        }
    }
}

#[test]
fn path_between_hall_nodes_no_degenerate_steps() {
    for fy in (0..640).step_by(7) {
        for ty in (0..640).step_by(11) {
            for from_left in [true, false] {
                for to_left in [true, false] {
                    let fx = if from_left { HALLWAY_LEFT_X } else { HALLWAY_RIGHT_X };
                    let tx = if to_left { HALLWAY_LEFT_X } else { HALLWAY_RIGHT_X };
                    let from = Point::new(fx, fy);
                    let to = Point::new(tx, ty);
                    let r = path_between_hall_nodes(from, to);
                    let mut full = vec![from];
                    full.extend(r);
                    for w in full.windows(2) {
                        assert!(w[0] != w[1]);
                    }
                    assert_eq!(full.last().copied(), Some(to));
                }
            }
        }
    }
}

#[test]
fn path_to_door_from_retraces_the_walk_in() {
    let t = Target::Lab(lab_stations()[1]);
    let fwd = path_from_door_to(&t);
    let back = path_to_door_from(&t);
    assert_eq!(back.len(), fwd.len() + 1);
    for i in 0..fwd.len() - 1 {
        assert_eq!(back[i], fwd[fwd.len() - 2 - i]);
    }
    assert_eq!(back[back.len() - 2], Point::new(88, 328));
}
