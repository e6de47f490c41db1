use workplacesim::render::palette::{rgb_from_hex, Rgb, BG, FLOOR_A, FLOOR_B, FLOOR_LAB_A, FLOOR_LAB_B};
use workplacesim::render::scene::{Mark, Shape};
use workplacesim::render::spill::{avg, floor_tone, floor_zone, pick_floor, window_spill, FloorZone, SpillTints};

fn tints() -> SpillTints {
    SpillTints { meeting: Rgb(1, 0, 0), lab: Rgb(2, 0, 0), open: Rgb(3, 0, 0), outside: Rgb(4, 0, 0) }
}

#[test]
fn avg_rounds_down_per_channel() {
    assert_eq!(avg(Rgb(1, 2, 3), Rgb(4, 5, 6)), Rgb(2, 3, 4));
    assert_eq!(avg(Rgb(255, 255, 0), Rgb(255, 254, 1)), Rgb(255, 254, 0));
}

#[test]
fn floor_zones_follow_the_rooms() {
    assert_eq!(floor_zone(420, 40), FloorZone::Meeting);
    assert_eq!(floor_zone(420, 200), FloorZone::Lab);
    assert_eq!(floor_zone(100, 100), FloorZone::Open);
    assert_eq!(floor_zone(5, 5), FloorZone::Outside);
    // Right and bottom edges are outside.
    assert_eq!(floor_zone(400, 100), FloorZone::Outside);
    assert_eq!(floor_zone(100, 292), FloorZone::Outside);
}

#[test]
fn pick_floor_averages_the_tiles() {
    assert_eq!(pick_floor(100, 100), avg(rgb_from_hex(FLOOR_A), rgb_from_hex(FLOOR_B)));
    assert_eq!(pick_floor(420, 200), avg(rgb_from_hex(FLOOR_LAB_A), rgb_from_hex(FLOOR_LAB_B)));
    assert_eq!(pick_floor(0, 0), rgb_from_hex(BG));
    assert_eq!(floor_tone(FloorZone::Outside), rgb_from_hex(BG));
}

#[test]
fn window_light_widens_into_the_room() {
    let v = window_spill(&tints());
    // Nine windows, eleven rows each, 10..22 pixels either side of centre.
    assert_eq!(v.len(), 9 * 363);
    // First window: centre x 120, south light from row 36, half width 10.
    assert_eq!(v[0], Mark { shape: Shape::Dot(110, 36), color: Rgb(3, 0, 0) });
    assert_eq!(v[20], Mark { shape: Shape::Dot(130, 36), color: Rgb(3, 0, 0) });
    assert_eq!(v[21], Mark { shape: Shape::Dot(109, 37), color: Rgb(3, 0, 0) });
    // Fourth window: north light, top row 282 is the far edge, half width 22.
    let start = 3 * 363;
    assert_eq!(v[start], Mark { shape: Shape::Dot(138, 282), color: Rgb(3, 0, 0) });
    // Sixth window, over the meeting room: the meeting tint.
    let w6 = 5 * 363;
    assert_eq!(v[w6], Mark { shape: Shape::Dot(422, 36), color: Rgb(1, 0, 0) });
}
