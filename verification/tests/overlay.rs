use workplacesim::render::geometry::{Point, Rect};
use workplacesim::render::overlay::{bench_flash_rect, readout_line_origin, readout_panel, ticker_origin, whiteboard_origin};

#[test]
fn whiteboard_and_ticker_origins() {
    assert_eq!(whiteboard_origin(), Point::new(454, 48));
    assert_eq!(ticker_origin(0), Point::new(53, 46));
    assert_eq!(ticker_origin(2), Point::new(53, 64));
}

#[test]
fn readout_panel_hugs_the_open_room_corner() {
    // "up 1h 42m" and friends: at most 13 characters.
    let p = readout_panel(13);
    assert_eq!(p, Rect::new(400 - 84 - 4, 292 - 34 - 4, 84, 34));
    assert_eq!(readout_line_origin(p, 0), Point::new(p.x + 3, p.y + 10));
    assert_eq!(readout_line_origin(p, 2), Point::new(p.x + 3, p.y + 30));
}

#[test]
fn bench_flashes_light_the_station_monitors() {
    assert_eq!(bench_flash_rect(0), Some(Rect::new(441, 183, 13, 7)));
    assert_eq!(bench_flash_rect(1), Some(Rect::new(496, 183, 13, 7)));
    assert_eq!(bench_flash_rect(2), Some(Rect::new(551, 183, 13, 7)));
    assert_eq!(bench_flash_rect(3), None);
}
