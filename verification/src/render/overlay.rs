//! Where the text and light overlays sit on the frame: the whiteboard
//! prompt, the lines of the file ticker, the idle status panel and the lab
//! monitors lit by shell results. All in frame pixels.

use vstd::prelude::*;
use crate::render::geometry::{Point, Rect};

verus! {

/// The most characters the whiteboard shows.
pub const WB_MAX_CHARS: usize = 18;

/// The most characters a ticker line shows.
pub const TICKER_MAX_CHARS: usize = 50;

/// How many ticker lines are shown, newest first.
pub const TICKER_LINES: usize = 3;

/// The lines of the status panel: clock, uptime, last session.
pub const READOUT_LINES: usize = 3;

/// The baseline origin of the whiteboard prompt: two pixels into the
/// 100-pixel board centred in the meeting room, seven below its top.
pub fn whiteboard_origin() -> (p: Point)
    ensures
        p == (Point { x: 454, y: 48 }),
{
    Point::new(454, 48)
}

/// The baseline origin of ticker line `i` (0 the newest): nine pixels apart
/// from the open room's top left inset.
pub fn ticker_origin(i: usize) -> (p: Point)
    requires
        i < TICKER_LINES,
    ensures
        p == (Point { x: 53, y: (46 + 9 * i) as i32 }),
{
    Point::new(53, 46 + 9 * (i as i32))
}

/// The status panel for lines of at most `max_chars` characters in a
/// six-pixel font: three ten-pixel lines with a small margin, four pixels in
/// from the open room's bottom right corner.
pub open spec fn readout_panel_of(max_chars: int) -> Rect {
    let w = max_chars * 6 + 6;
    let h = (READOUT_LINES as int) * 10 + 4;
    Rect { x: (400 - w - 4) as i32, y: (292 - h - 4) as i32, w: w as i32, h: h as i32 }
}

/// The status panel (see `readout_panel_of`).
pub fn readout_panel(max_chars: usize) -> (r: Rect)
    requires
        max_chars <= 10_000,
    ensures
        r == readout_panel_of(max_chars as int),
{
    let w = (max_chars as i32) * 6 + 6;
    let h = (READOUT_LINES as i32) * 10 + 4;
    Rect::new(400 - w - 4, 292 - h - 4, w, h)
}

/// The baseline origin of line `i` of a status panel.
pub fn readout_line_origin(panel: Rect, i: usize) -> (p: Point)
    requires
        i < READOUT_LINES,
        -1_000_000 <= panel.x <= 1_000_000,
        -1_000_000 <= panel.y <= 1_000_000,
    ensures
        p == (Point { x: (panel.x + 3) as i32, y: (panel.y + 10 + 10 * i) as i32 }),
{
    Point::new(panel.x + 3, panel.y + 10 + 10 * (i as i32))
}

/// The monitor of lab station `i` that a shell result lights: 13 by 7
/// pixels centred on the station, two pixels below the bench's top; none
/// for a station that does not exist.
pub open spec fn flash_rect_of(i: int) -> Option<Rect> {
    if 0 <= i < 3 {
        let xs = seq![894int, 1004, 1114];
        Some(Rect { x: (xs[i] / 2 - 6) as i32, y: 183, w: 13, h: 7 })
    } else {
        None
    }
}

/// The monitor lit for station `i` (see `flash_rect_of`).
pub fn bench_flash_rect(i: usize) -> (r: Option<Rect>)
    ensures
        r == flash_rect_of(i as int),
{
    let xs = crate::render::geometry::lab_station_xs();
    if i < 3 {
        Some(Rect::new(xs[i] / 2 - 6, 183, 13, 7))
    } else {
        None
    }
}

} // verus!
