//! Corridor routing. Routes are ordered polylines of waypoints; sims tween
//! between consecutive points. Vertical transit hugs the two halls,
//! horizontal transit stays on a corridor lane so a path never cuts through
//! a desk; the only other segments are short stubs inside doors or rooms.

use vstd::prelude::*;

use super::geometry::{
    corridor_ys, door, lab_door, lab_room, meeting_door, meeting_room, open_room, DeskSeat,
    LabStation, MeetingSeat, Point, HALLWAY_LEFT_X, HALLWAY_RIGHT_X, OUTSIDE_X,
};

verus! {

pub open spec fn abs_int(v: int) -> int {
    if v < 0 {
        -v
    } else {
        v
    }
}

/// Corridor lane `k` (0..4): 125, 256, 416, 576.
pub open spec fn corridor(k: int) -> int {
    if k == 0 {
        125
    } else if k == 1 {
        256
    } else if k == 2 {
        416
    } else {
        576
    }
}

pub open spec fn is_corridor(y: int) -> bool {
    y == 125 || y == 256 || y == 416 || y == 576
}

pub open spec fn nearest_step(best: int, y: int, c: int) -> int {
    if abs_int(y - c) < abs_int(y - best) {
        c
    } else {
        best
    }
}

/// Scan of the first `k` lanes keeping the strictly closer one: ties go to
/// the lane met first.
pub open spec fn nearest_prefix(y: int, k: nat) -> int
    decreases k,
{
    if k == 0 {
        125
    } else {
        nearest_step(nearest_prefix(y, (k - 1) as nat), y, corridor(k - 1))
    }
}

pub open spec fn nearest_cy(y: int) -> int {
    nearest_prefix(y, 4)
}

/// Inputs far enough from `i32::MIN` that distances to every lane fit.
pub open spec fn y_in_range(y: int) -> bool {
    y > i32::MIN + 576
}

/// Snap `y` to the nearest corridor lane; ties go to the first lane.
pub fn nearest_corridor_y(y: i32) -> (r: i32)
    requires
        y_in_range(y as int),
    ensures
        r == nearest_cy(y as int),
{
    let ys = corridor_ys();
    let mut best = ys[0];
    let mut best_d = if y - best < 0 { best - y } else { y - best };
    let mut k: usize = 0;
    while k < 4
        invariant
            y_in_range(y as int),
            k <= 4,
            ys@ == seq![125i32, 256, 416, 576],
            best == nearest_prefix(y as int, k as nat) || (k == 0 && best == 125),
            best as int == nearest_prefix(y as int, k as nat) || k == 0,
            best_d == abs_int(y - best),
            is_corridor(best as int),
        decreases 4 - k,
    {
        let cy = ys[k];
        let d = if y - cy < 0 { cy - y } else { y - cy };
        if d < best_d {
            best_d = d;
            best = cy;
        }
        k = k + 1;
    }
    best
}

/// Whether `y` is one of the corridor lanes.
pub fn on_corridor(y: i32) -> (r: bool)
    ensures
        r == is_corridor(y as int),
{
    let ys = corridor_ys();
    let mut k: usize = 0;
    while k < 4
        invariant
            k <= 4,
            ys@ == seq![125i32, 256, 416, 576],
            forall|j: int| 0 <= j < k ==> corridor(j) != y,
        decreases 4 - k,
    {
        if ys[k] == y {
            return true;
        }
        assert(corridor(k as int) == ys@[k as int]);
        k = k + 1;
    }
    assert(corridor(0) != y && corridor(1) != y && corridor(2) != y && corridor(3) != y);
    false
}

/// What a sim walks to: a seat or an overflow spot in one of the rooms.
#[derive(Clone, Copy, Debug, PartialEq, Eq, Structural)]
pub enum Target {
    Desk(DeskSeat),
    Queue(Point),
    Meeting(MeetingSeat),
    MeetingQueue(Point),
    Lab(LabStation),
    LabQueue(Point),
}

pub open spec fn pt(x: int, y: int) -> Point {
    Point { x: x as i32, y: y as i32 }
}

/// The hall node where transit toward the target ends.
pub open spec fn staging(t: Target) -> Point {
    match t {
        Target::Desk(d) => pt(130, d.approach_y as int),
        Target::Queue(p) => pt(776, nearest_cy(p.y as int)),
        Target::Meeting(_) | Target::MeetingQueue(_) => pt(776, nearest_cy(193)),
        Target::Lab(_) | Target::LabQueue(_) => pt(776, nearest_cy(455)),
    }
}

/// A queue spot's y must be in range for the lane snap.
pub open spec fn target_ok(t: Target) -> bool {
    match t {
        Target::Queue(p) => y_in_range(p.y as int),
        _ => true,
    }
}

/// The hall node where cross-hall transit toward `target` ends.
pub fn staging_for_target(target: &Target) -> (r: Point)
    requires
        target_ok(*target),
    ensures
        r == staging(*target),
{
    match target {
        Target::Desk(d) => Point::new(HALLWAY_LEFT_X, d.approach_y),
        Target::Queue(p) => Point::new(HALLWAY_RIGHT_X, nearest_corridor_y(p.y)),
        Target::Meeting(_) | Target::MeetingQueue(_) => Point::new(HALLWAY_RIGHT_X, nearest_corridor_y(meeting_door().y)),
        Target::Lab(_) | Target::LabQueue(_) => Point::new(HALLWAY_RIGHT_X, nearest_corridor_y(lab_door().y)),
    }
}

/// Hall-to-hall path: empty between equal nodes, straight along one hall,
/// and across the halls on a corridor lane (the start's own lane, else the
/// nearest one). The start itself is not included.
pub open spec fn hall_path(from: Point, to: Point) -> Seq<Point> {
    if from == to {
        seq![]
    } else if from.x == to.x {
        seq![to]
    } else {
        let t: int = if is_corridor(from.y as int) {
            from.y as int
        } else {
            nearest_cy(from.y as int)
        };
        let a = if t != from.y {
            seq![pt(from.x as int, t)]
        } else {
            seq![]
        };
        let b = if t != to.y || from.x != to.x {
            a.push(pt(to.x as int, t))
        } else {
            a
        };
        if t != to.y {
            b.push(to)
        } else {
            b
        }
    }
}

/// Connect two hall nodes (see `hall_path`).
pub fn path_between_hall_nodes(from: Point, to: Point) -> (r: Vec<Point>)
    requires
        from.x != to.x ==> y_in_range(from.y as int),
    ensures
        r@ == hall_path(from, to),
{
    if from == to {
        return Vec::new();
    }
    if from.x == to.x {
        let mut v = Vec::new();
        v.push(to);
        return v;
    }
    let transit_y = if on_corridor(from.y) { from.y } else { nearest_corridor_y(from.y) };
    let mut out: Vec<Point> = Vec::new();
    if transit_y != from.y {
        out.push(Point::new(from.x, transit_y));
    }
    if transit_y != to.y || from.x != to.x {
        out.push(Point::new(to.x, transit_y));
    }
    if transit_y != to.y {
        out.push(to);
    }
    proof {
        let t: int = if is_corridor(from.y as int) { from.y as int } else { nearest_cy(from.y as int) };
        assert(transit_y == t);
        let a = if t != from.y { seq![pt(from.x as int, t)] } else { seq![] };
        let b = if t != to.y || from.x != to.x { a.push(pt(to.x as int, t)) } else { a };
        let c = if t != to.y { b.push(to) } else { b };
        assert(out@ =~= c);
    }
    out
}

/// Waypoints from the staging node to the final seat or spot.
pub open spec fn approach(t: Target) -> Seq<Point> {
    match t {
        Target::Desk(d) => seq![pt(d.approach_x as int, d.approach_y as int), pt(d.seat_x as int, d.seat_y as int)],
        Target::Queue(p) => seq![p],
        Target::Meeting(s) => seq![
            pt(776, 193),
            pt(848, 193),
            pt(s.approach_x as int, s.approach_y as int),
            pt(s.seat_x as int, s.seat_y as int),
        ],
        Target::MeetingQueue(p) => seq![pt(776, 193), pt(848, 193), p],
        Target::Lab(s) => seq![
            pt(776, 455),
            pt(848, 455),
            pt(s.approach_x as int, s.approach_y as int),
            pt(s.seat_x as int, s.seat_y as int),
        ],
        Target::LabQueue(p) => seq![pt(776, 455), pt(848, 455), p],
    }
}

/// Approach waypoints from the staging node to the target (see `approach`).
pub fn target_approach_waypoints(target: &Target) -> (r: Vec<Point>)
    ensures
        r@ == approach(*target),
{
    let mut out: Vec<Point> = Vec::new();
    match target {
        Target::Desk(d) => {
            out.push(Point::new(d.approach_x, d.approach_y));
            out.push(Point::new(d.seat_x, d.seat_y));
        },
        Target::Queue(p) => {
            out.push(*p);
        },
        Target::Meeting(s) => {
            out.push(Point::new(HALLWAY_RIGHT_X, meeting_door().y));
            out.push(Point::new(meeting_room().x + 24, meeting_door().y));
            out.push(Point::new(s.approach_x, s.approach_y));
            out.push(Point::new(s.seat_x, s.seat_y));
        },
        Target::MeetingQueue(p) => {
            out.push(Point::new(HALLWAY_RIGHT_X, meeting_door().y));
            out.push(Point::new(meeting_room().x + 24, meeting_door().y));
            out.push(*p);
        },
        Target::Lab(s) => {
            out.push(Point::new(HALLWAY_RIGHT_X, lab_door().y));
            out.push(Point::new(lab_room().x + 24, lab_door().y));
            out.push(Point::new(s.approach_x, s.approach_y));
            out.push(Point::new(s.seat_x, s.seat_y));
        },
        Target::LabQueue(p) => {
            out.push(Point::new(HALLWAY_RIGHT_X, lab_door().y));
            out.push(Point::new(lab_room().x + 24, lab_door().y));
            out.push(*p);
        },
    }
    proof {
        assert(out@ =~= approach(*target));
    }
    out
}

fn extend(out: &mut Vec<Point>, more: Vec<Point>)
    ensures
        final(out)@ == old(out)@ + more@,
{
    let mut i: usize = 0;
    let ghost start = out@;
    while i < more.len()
        invariant
            i <= more@.len(),
            out@ == start + more@.take(i as int),
        decreases more@.len() - i,
    {
        out.push(more[i]);
        proof {
            assert(more@.take(i as int + 1) =~= more@.take(i as int).push(more@[i as int]));
        }
        i = i + 1;
    }
    proof {
        assert(more@.take(more@.len() as int) =~= more@);
    }
}

/// Just inside the west door, on the left hall.
pub open spec fn inside_door() -> Point {
    pt(130, 328)
}

/// Walk-in route from the west door: the inside-door hall node, hall
/// transit to the staging node, then the approach.
pub open spec fn door_path(t: Target) -> Seq<Point> {
    seq![inside_door()] + hall_path(inside_door(), staging(t)) + approach(t)
}

/// Door-to-target polyline (see `door_path`).
pub fn path_from_door_to(target: &Target) -> (r: Vec<Point>)
    requires
        target_ok(*target),
    ensures
        r@ == door_path(*target),
{
    let inside_open_door = Point::new(HALLWAY_LEFT_X, door().y);
    let staging = staging_for_target(target);
    let mut out: Vec<Point> = Vec::new();
    out.push(inside_open_door);
    extend(&mut out, path_between_hall_nodes(inside_open_door, staging));
    extend(&mut out, target_approach_waypoints(target));
    out
}

/// Waypoints from an arbitrary position to a hall node, and that node.
/// West of the open room: enter by the west door. In the meeting room or
/// the lab: leave by its door and snap to a lane on the right hall. In the
/// open room: step onto the nearest lane, then along it to the nearer hall
/// (steps of six pixels or less are skipped).
pub open spec fn route_prefix(cx: int, cy: int) -> (Seq<Point>, Point) {
    if cx < 96 {
        (seq![pt(98, 328), pt(130, 328)], pt(130, 328))
    } else if 824 <= cx <= 1184 && 72 <= cy <= 314 {
        let h = pt(776, nearest_cy(193));
        (seq![pt(848, 193), pt(776, 193), h], h)
    } else if 824 <= cx <= 1184 && 326 <= cy <= 584 {
        let h = pt(776, nearest_cy(455));
        (seq![pt(848, 455), pt(776, 455), h], h)
    } else {
        let corr_y = nearest_cy(cy);
        let hall_x: int = if cx > 756 {
            776
        } else {
            130
        };
        let a = if abs_int(cy - corr_y) > 6 {
            seq![pt(cx, corr_y)]
        } else {
            seq![]
        };
        let b = if abs_int(cx - hall_x) > 6 {
            a.push(pt(hall_x, corr_y))
        } else {
            a
        };
        (b, pt(hall_x, corr_y))
    }
}

struct Prefix {
    prefix: Vec<Point>,
    handoff: Point,
}

/// Positions for which every distance the router computes fits in `i32`.
pub open spec fn from_ok(p: Point) -> bool {
    p.x > i32::MIN + 776 && y_in_range(p.y as int)
}

fn route_from_current_position(cx: i32, cy: i32) -> (r: Prefix)
    requires
        from_ok(Point { x: cx, y: cy }),
    ensures
        (r.prefix@, r.handoff) == route_prefix(cx as int, cy as int),
{
    if cx < open_room().x {
        let handoff = Point::new(HALLWAY_LEFT_X, door().y);
        let mut prefix = Vec::new();
        prefix.push(Point::new(open_room().x + 2, door().y));
        prefix.push(handoff);
        proof {
            assert(prefix@ =~= seq![pt(98, 328), pt(130, 328)]);
        }
        return Prefix { prefix, handoff };
    }
    if meeting_room().x <= cx && cx <= meeting_room().x + meeting_room().w && meeting_room().y <= cy && cy
        <= meeting_room().y + meeting_room().h {
        let corr_y = nearest_corridor_y(meeting_door().y);
        let handoff = Point::new(HALLWAY_RIGHT_X, corr_y);
        let mut prefix = Vec::new();
        prefix.push(Point::new(meeting_room().x + 24, meeting_door().y));
        prefix.push(Point::new(HALLWAY_RIGHT_X, meeting_door().y));
        prefix.push(handoff);
        proof {
            assert(prefix@ =~= route_prefix(cx as int, cy as int).0);
        }
        return Prefix { prefix, handoff };
    }
    if lab_room().x <= cx && cx <= lab_room().x + lab_room().w && lab_room().y <= cy && cy <= lab_room().y
        + lab_room().h {
        let corr_y = nearest_corridor_y(lab_door().y);
        let handoff = Point::new(HALLWAY_RIGHT_X, corr_y);
        let mut prefix = Vec::new();
        prefix.push(Point::new(lab_room().x + 24, lab_door().y));
        prefix.push(Point::new(HALLWAY_RIGHT_X, lab_door().y));
        prefix.push(handoff);
        proof {
            assert(prefix@ =~= route_prefix(cx as int, cy as int).0);
        }
        return Prefix { prefix, handoff };
    }
    let corr_y = nearest_corridor_y(cy);
    let hall_x = if cx > HALLWAY_RIGHT_X - 20 { HALLWAY_RIGHT_X } else { HALLWAY_LEFT_X };
    let mut prefix = Vec::new();
    let dy = if cy - corr_y < 0 { corr_y - cy } else { cy - corr_y };
    let dx = if cx - hall_x < 0 { hall_x - cx } else { cx - hall_x };
    if dy > 6 {
        prefix.push(Point::new(cx, corr_y));
    }
    if dx > 6 {
        prefix.push(Point::new(hall_x, corr_y));
    }
    proof {
        assert(prefix@ =~= route_prefix(cx as int, cy as int).0);
    }
    Prefix { prefix, handoff: Point::new(hall_x, corr_y) }
}

/// Full route from `from` to the target, without `from` itself: the
/// prefix to a hall node, hall transit to the staging node, the approach.
pub open spec fn route(from: Point, t: Target) -> Seq<Point> {
    let (prefix, handoff) = route_prefix(from.x as int, from.y as int);
    prefix + hall_path(handoff, staging(t)) + approach(t)
}

/// Full route from `from` to `target` (see `route`).
pub fn compute_route(from: Point, target: &Target) -> (r: Vec<Point>)
    requires
        from_ok(from),
        target_ok(*target),
    ensures
        r@ == route(from, *target),
{
    let pre = route_from_current_position(from.x, from.y);
    let staging = staging_for_target(target);
    let mut out = pre.prefix;
    proof {
        lemma_nearest_is_corridor(from.y as int);
        lemma_nearest_is_corridor(193);
        lemma_nearest_is_corridor(455);
    }
    extend(&mut out, path_between_hall_nodes(pre.handoff, staging));
    extend(&mut out, target_approach_waypoints(target));
    out
}

/// Walk-out route from a seat: the walk-in route reversed without its last
/// point, then out through the west door to outside.
pub open spec fn door_exit(t: Target) -> Seq<Point> {
    door_path(t).drop_last().reverse().push(pt(88, 328)).push(pt(40, 328))
}

/// Reverse direction: from a seated target back out through the west door.
pub fn path_to_door_from(target: &Target) -> (r: Vec<Point>)
    requires
        target_ok(*target),
    ensures
        r@ == door_exit(*target),
{
    let mut forward = path_from_door_to(target);
    let ghost f = forward@;
    forward.pop();
    let n = forward.len();
    let mut out: Vec<Point> = Vec::new();
    let mut i: usize = 0;
    while i < n
        invariant
            n == forward@.len(),
            forward@ == f.drop_last(),
            i <= n,
            out@.len() == i,
            forall|j: int| 0 <= j < i ==> out@[j] == forward@[n - 1 - j],
        decreases n - i,
    {
        out.push(forward[n - 1 - i]);
        i = i + 1;
    }
    proof {
        assert(out@ =~= f.drop_last().reverse());
    }
    out.push(Point::new(open_room().x - 8, door().y));
    out.push(Point::new(OUTSIDE_X, door().y));
    out
}

// ------------------------------------------------------------ lemmas

/// The lane snap always lands on a lane, and on one at least as close as
/// every other lane.
pub proof fn lemma_nearest_is_corridor(y: int)
    ensures
        is_corridor(nearest_cy(y)),
        y_in_range(nearest_cy(y)),
        forall|k: int| 0 <= k < 4 ==> abs_int(y - nearest_cy(y)) <= abs_int(y - corridor(k)),
{
    reveal_with_fuel(nearest_prefix, 5);
}


// ------------------------------------------------------------ laws

pub open spec fn is_hall_x(x: int) -> bool {
    x == 130 || x == 776
}

/// One hop of a well-formed route: it moves, a hop between the halls turns
/// only on cardinal axes, and a horizontal hop from one hall to the other
/// runs on a corridor lane.
pub open spec fn good_hop(a: Point, b: Point) -> bool {
    &&& a != b
    &&& (is_hall_x(a.x as int) && is_hall_x(b.x as int)) ==> (a.x == b.x || a.y == b.y)
    &&& (is_hall_x(a.x as int) && is_hall_x(b.x as int) && a.x != b.x && a.y == b.y) ==> is_corridor(a.y as int)
}

pub open spec fn good_hops(s: Seq<Point>) -> bool {
    forall|i: int| 0 <= i < s.len() - 1 ==> good_hop(#[trigger] s[i], s[i + 1])
}

/// Seats and spots of the office layout.
pub open spec fn valid_target(t: Target) -> bool {
    match t {
        Target::Desk(d) => exists|i: int| 0 <= i < 12 && d == super::geometry::desk_seat_at(i),
        Target::Queue(p) => p == pt(752, 120) || p == pt(752, 180) || p == pt(752, 484) || p == pt(752, 544),
        Target::Meeting(s) => exists|i: int| 0 <= i < 4 && s == super::geometry::meeting_seat_at(i),
        Target::MeetingQueue(p) => p == pt(856, 132) || p == pt(1152, 132),
        Target::Lab(s) => exists|i: int| 0 <= i < 3 && s == super::geometry::lab_station_at(i),
        Target::LabQueue(p) => p == pt(856, 556) || p == pt(1152, 556),
    }
}

proof fn lemma_hops_concat(x: Seq<Point>, y: Seq<Point>)
    requires
        good_hops(x),
        good_hops(y),
        x.len() > 0 && y.len() > 0 ==> good_hop(x.last(), y[0]),
    ensures
        good_hops(x + y),
{
    let z = x + y;
    assert forall|i: int| 0 <= i < z.len() - 1 implies good_hop(#[trigger] z[i], z[i + 1]) by {
        if i < x.len() - 1 {
            assert(z[i] == x[i] && z[i + 1] == x[i + 1]);
        } else if i == x.len() - 1 {
            assert(z[i] == x.last() && z[i + 1] == y[0]);
        } else {
            assert(z[i] == y[i - x.len()] && z[i + 1] == y[i - x.len() + 1]);
        }
    }
}

/// The full walk between two hall nodes, start included, hops well and
/// ends at the destination.
pub proof fn law_hall_path(from: Point, to: Point)
    requires
        y_in_range(from.y as int),
        is_hall_x(from.x as int),
        is_hall_x(to.x as int),
    ensures
        (seq![from] + hall_path(from, to)).last() == to,
        good_hops(seq![from] + hall_path(from, to)),
{
    lemma_nearest_is_corridor(from.y as int);
    let full = seq![from] + hall_path(from, to);
    assert forall|i: int| 0 <= i < full.len() - 1 implies good_hop(#[trigger] full[i], full[i + 1]) by {
    }
}

proof fn lemma_target_facts(t: Target)
    requires
        valid_target(t),
    ensures
        match t {
            Target::Desk(d) => (d.approach_x == 200 || d.approach_x == 360 || d.approach_x == 520 || d.approach_x == 680)
                && d.seat_x == d.approach_x && (d.approach_y == 256 || d.approach_y == 416 || d.approach_y == 576)
                && d.seat_y == d.approach_y - 32,
            Target::Meeting(s) => (s.approach_x == 944 || s.approach_x == 1064) && s.seat_x == s.approach_x
                && ((s.approach_y == 127 && s.seat_y == 155) || (s.approach_y == 287 && s.seat_y == 259)),
            Target::Lab(s) => (s.approach_x == 894 || s.approach_x == 1004 || s.approach_x == 1114) && s.seat_x
                == s.approach_x && s.approach_y == 458 && s.seat_y == 426,
            _ => true,
        },
{
    match t {
        Target::Desk(d) => {
            let i = choose|i: int| 0 <= i < 12 && d == super::geometry::desk_seat_at(i);
            assert(0 <= i % 4 < 4 && 0 <= i / 4 < 3);
        },
        Target::Meeting(s) => {
            let i = choose|i: int| 0 <= i < 4 && s == super::geometry::meeting_seat_at(i);
        },
        Target::Lab(s) => {
            let i = choose|i: int| 0 <= i < 3 && s == super::geometry::lab_station_at(i);
        },
        _ => {},
    }
}

/// Every route from a position in range to a seat or spot of the layout
/// hops well: no hop stands still, hops between the halls are horizontal
/// or vertical, and horizontal hops across the halls run on a corridor.
pub proof fn law_route_hops(from: Point, t: Target)
    requires
        from_ok(from),
        valid_target(t),
    ensures
        good_hops(route(from, t)),
{
    lemma_nearest_is_corridor(from.y as int);
    lemma_nearest_is_corridor(193);
    lemma_nearest_is_corridor(455);
    reveal_with_fuel(nearest_prefix, 5);
    lemma_target_facts(t);
    let (p, h) = route_prefix(from.x as int, from.y as int);
    let st = staging(t);
    let hp = hall_path(h, st);
    let a = approach(t);
    let cx = from.x as int;
    let cy = from.y as int;
    if cx < 96 {
        assert(is_hall_x(h.x as int) && y_in_range(h.y as int));
    } else if 824 <= cx <= 1184 && 72 <= cy <= 314 {
        assert(nearest_cy(193) == 256);
        assert(is_hall_x(h.x as int) && y_in_range(h.y as int));
    } else if 824 <= cx <= 1184 && 326 <= cy <= 584 {
        assert(nearest_cy(455) == 416);
        assert(is_hall_x(h.x as int) && y_in_range(h.y as int));
    } else {
        assert(is_hall_x(h.x as int) && y_in_range(h.y as int));
    }
    assert(good_hops(p));
    law_hall_path(h, st);
    let full_h = seq![h] + hp;
    assert(good_hops(hp)) by {
        assert forall|i: int| 0 <= i < hp.len() - 1 implies good_hop(#[trigger] hp[i], hp[i + 1]) by {
            assert(hp[i] == full_h[i + 1] && hp[i + 1] == full_h[i + 2]);
        }
    }
    assert(good_hops(a));
    assert(hp.len() > 0 ==> good_hop(h, hp[0])) by {
        if hp.len() > 0 {
            assert(full_h[0] == h && full_h[1] == hp[0]);
        }
    }
    assert(hp.len() > 0 ==> hp.last() == st) by {
        if hp.len() > 0 {
            assert(full_h.last() == hp.last());
        }
    }
    assert(good_hop(st, a[0]));
    if p.len() > 0 {
        if p.last() == h {
        } else {
            assert(!is_hall_x(p.last().x as int));
            assert(p.last().y == h.y);
            assert(hp.len() > 0 ==> good_hop(p.last(), hp[0]));
            assert(hp.len() == 0 ==> good_hop(p.last(), a[0]));
        }
    }
    lemma_hops_concat(p, hp);
    if hp.len() == 0 {
        assert(p + hp =~= p);
    } else {
        assert((p + hp).last() == st);
    }
    lemma_hops_concat(p + hp, a);
}
} // verus!
