//! The static scene: floor tiles, walls and doors, windows, desks, the
//! meeting table and the lab bench, drawn on the 640 by 360 render frame.
//! Layout values are in world pixels and halved at draw time.
//!
//! Most of the scene is a list of marks (filled rectangles, one-pixel runs,
//! borders, discs) painted in order; a pixel ends up with the colour of the
//! last mark that covers it.

use vstd::prelude::*;
use crate::render::frame::{between, in_disc, in_rect, inside, on_border, RenderFrame};
use crate::render::geometry::{
    bench, desk_seat_at, desk_seats, door, lab_door, lab_room, lab_station_at, lab_station_xs, lab_stations,
    meeting_door, meeting_room, meeting_seat_at, meeting_seats, open_room, table, window_recs, windows, DeskSeat, DoorV,
    MeetingSide, Rect, WindowRec, DESK_H, DESK_W, WALL_THICKNESS, WINDOW_H, WINDOW_W,
};
use crate::render::palette::{
    hex_rgb, rgb_from_hex, Rgb, BENCH_EDGE, BENCH_SHADE, BENCH_TOP, BG, BUILD_BOARD_BG, CHAIR, CHAIR_HI,
    DESK_EDGE, DESK_SHADE, DESK_TOP, FLOOR_A, FLOOR_B, FLOOR_LAB_A, FLOOR_LAB_B, FLOOR_LINE, FLOOR_MEETING_A,
    FLOOR_MEETING_B, KEYBOARD, LAB_GRID, LED, MONITOR, MONITOR_GLOW, MOUSE, SCOPE, SCOPE_TRACE, WALL, WALL_HI,
    WHITEBOARD_BODY, WHITEBOARD_FRAME, WINDOW_FRAME, WINDOW_GLASS,
};

verus! {

/// A drawing primitive.
#[derive(Clone, Copy, Debug, PartialEq, Eq, Structural)]
pub enum Shape {
    /// A filled rectangle.
    Fill(Rect),
    /// The pixels from `x0` to `x1`, both included, of row `y`: `(x0, x1, y)`.
    HLine(i32, i32, i32),
    /// The pixels from `y0` to `y1`, both included, of column `x`: `(x, y0, y1)`.
    VLine(i32, i32, i32),
    /// The one-pixel border of a rectangle.
    Border(Rect),
    /// The disc of radius `r` around `(cx, cy)`: `(cx, cy, r)`.
    Disc(i32, i32, i32),
    /// One pixel.
    Dot(i32, i32),
}

/// A primitive and its colour.
#[derive(Clone, Copy, Debug, PartialEq, Eq, Structural)]
pub struct Mark {
    pub shape: Shape,
    pub color: Rgb,
}

/// The pixels a primitive paints.
pub open spec fn covers(s: Shape, x: int, y: int) -> bool {
    match s {
        Shape::Fill(r) => in_rect(r, x, y),
        Shape::HLine(x0, x1, py) => y == py && between(x, x0 as int, x1 as int),
        Shape::VLine(px, y0, y1) => x == px && between(y, y0 as int, y1 as int),
        Shape::Border(r) => on_border(r, x, y),
        Shape::Disc(cx, cy, r) => r > 0 && in_disc(x - cx, y - cy, r as int),
        Shape::Dot(px, py) => x == px && y == py,
    }
}

/// A primitive whose arithmetic stays in range.
pub open spec fn shape_ok(s: Shape) -> bool {
    match s {
        Shape::Border(r) => r.w > 0 && r.h > 0 ==> r.x + r.w <= i32::MAX && r.y + r.h <= i32::MAX,
        Shape::Disc(cx, cy, r) => {
            &&& r <= 0x7fff
            &&& r > 0 ==> i32::MIN + r <= cx <= i32::MAX - r
            &&& r > 0 ==> i32::MIN + r <= cy <= i32::MAX - r
        },
        _ => true,
    }
}

/// Every mark of a list is in range.
pub open spec fn marks_ok(marks: Seq<Mark>) -> bool {
    forall|i: int| 0 <= i < marks.len() ==> shape_ok(#[trigger] marks[i].shape)
}

/// The colour of pixel `(x, y)` once `marks` are painted in order over
/// `before`: that of the last mark covering it, else the old one.
pub open spec fn drawn(marks: Seq<Mark>, before: RenderFrame, x: int, y: int) -> Rgb
    decreases marks.len(),
{
    if marks.len() == 0 {
        before.pixel(x, y)
    } else if covers(marks.last().shape, x, y) {
        marks.last().color
    } else {
        drawn(marks.drop_last(), before, x, y)
    }
}

/// `after` is `before` with `marks` painted over it.
pub open spec fn painted_over(before: RenderFrame, after: RenderFrame, marks: Seq<Mark>) -> bool {
    &&& after.wf()
    &&& after.w() == before.w()
    &&& after.h() == before.h()
    &&& forall|x: int, y: int| inside(before.w(), before.h(), x, y) ==> #[trigger] after.pixel(x, y) == drawn(marks, before, x, y)
}

/// Paints one primitive.
pub fn paint_mark(fb: &mut RenderFrame, m: Mark)
    requires
        old(fb).wf(),
        shape_ok(m.shape),
    ensures
        painted_over(*old(fb), *final(fb), seq![m]),
{
    let ghost before = *fb;
    match m.shape {
        Shape::Fill(r) => fb.fill_rect(r, m.color),
        Shape::HLine(x0, x1, y) => fb.draw_hline(x0, x1, y, m.color),
        Shape::VLine(x, y0, y1) => fb.draw_vline(x, y0, y1, m.color),
        Shape::Border(r) => fb.stroke_rect(r, m.color),
        Shape::Disc(cx, cy, r) => fb.fill_circle(cx, cy, r, m.color),
        Shape::Dot(x, y) => fb.set_pixel(x, y, m.color),
    }
    proof {
        assert forall|x: int, y: int| inside(before.w(), before.h(), x, y) implies #[trigger] fb.pixel(x, y) == drawn(
            seq![m],
            before,
            x,
            y,
        ) by {
            assert(seq![m].drop_last() =~= Seq::<Mark>::empty());
            assert(seq![m].last() == m);
            assert(drawn(seq![m].drop_last(), before, x, y) == before.pixel(x, y));
            assert(drawn(seq![m], before, x, y) == if covers(m.shape, x, y) {
                m.color
            } else {
                before.pixel(x, y)
            });
        }
    }
}

/// Paints `marks` in order.
pub fn paint(fb: &mut RenderFrame, marks: &Vec<Mark>)
    requires
        old(fb).wf(),
        marks_ok(marks@),
    ensures
        painted_over(*old(fb), *final(fb), marks@),
{
    let ghost before = *fb;
    let mut i: usize = 0;
    proof {
        assert forall|x: int, y: int| inside(before.w(), before.h(), x, y) implies #[trigger] fb.pixel(x, y) == drawn(
            marks@.take(0),
            before,
            x,
            y,
        ) by {
            assert(marks@.take(0) =~= Seq::<Mark>::empty());
        }
    }
    while i < marks.len()
        invariant
            fb.wf(),
            fb.w() == before.w(),
            fb.h() == before.h(),
            marks_ok(marks@),
            i <= marks@.len(),
            forall|x: int, y: int| inside(before.w(), before.h(), x, y) ==> #[trigger] fb.pixel(x, y) == drawn(
                marks@.take(i as int),
                before,
                x,
                y,
            ),
        decreases marks@.len() - i,
    {
        let m = marks[i];
        let ghost mid = *fb;
        assert(shape_ok(marks@[i as int].shape));
        paint_mark(fb, m);
        proof {
            assert(marks@.take(i + 1).drop_last() =~= marks@.take(i as int));
            assert(marks@.take(i + 1).last() == m);
            assert forall|x: int, y: int| inside(before.w(), before.h(), x, y) implies #[trigger] fb.pixel(x, y) == drawn(
                marks@.take(i + 1),
                before,
                x,
                y,
            ) by {
                assert(seq![m].drop_last() =~= Seq::<Mark>::empty());
                assert(seq![m].last() == m);
                assert(drawn(seq![m].drop_last(), mid, x, y) == mid.pixel(x, y));
                assert(mid.pixel(x, y) == drawn(marks@.take(i as int), before, x, y));
            }
        }
        i = i + 1;
    }
    proof {
        assert(marks@.take(i as int) =~= marks@);
    }
}


/// Half of a non-negative world coordinate: the render coordinate.
pub fn h(v: i32) -> (r: i32)
    requires
        v >= 0,
    ensures
        r == v / 2,
{
    ((v as u32) / 2) as i32
}

/// A world rectangle in render coordinates.
pub open spec fn half_rect(r: Rect) -> Rect {
    Rect { x: (r.x / 2) as i32, y: (r.y / 2) as i32, w: (r.w / 2) as i32, h: (r.h / 2) as i32 }
}

/// A world rectangle in render coordinates.
pub fn hr(r: Rect) -> (o: Rect)
    requires
        r.x >= 0,
        r.y >= 0,
        r.w >= 0,
        r.h >= 0,
    ensures
        o == half_rect(r),
{
    Rect::new(h(r.x), h(r.y), h(r.w), h(r.h))
}

/// A filled rectangle of a colour given as a code.
pub open spec fn fill(x: int, y: int, w: int, h: int, hex: u32) -> Mark {
    Mark { shape: Shape::Fill(Rect { x: x as i32, y: y as i32, w: w as i32, h: h as i32 }), color: hex_rgb(hex) }
}

/// A horizontal run of a colour given as a code.
pub open spec fn hline(x0: int, x1: int, y: int, hex: u32) -> Mark {
    Mark { shape: Shape::HLine(x0 as i32, x1 as i32, y as i32), color: hex_rgb(hex) }
}

/// A vertical run of a colour given as a code.
pub open spec fn vline(x: int, y0: int, y1: int, hex: u32) -> Mark {
    Mark { shape: Shape::VLine(x as i32, y0 as i32, y1 as i32), color: hex_rgb(hex) }
}

/// A border of a colour given as a code.
pub open spec fn border(x: int, y: int, w: int, h: int, hex: u32) -> Mark {
    Mark { shape: Shape::Border(Rect { x: x as i32, y: y as i32, w: w as i32, h: h as i32 }), color: hex_rgb(hex) }
}

/// A disc of a colour given as a code.
pub open spec fn disc(cx: int, cy: int, r: int, hex: u32) -> Mark {
    Mark { shape: Shape::Disc(cx as i32, cy as i32, r as i32), color: hex_rgb(hex) }
}

fn fill_mark(x: i32, y: i32, w: i32, h: i32, hex: u32) -> (m: Mark)
    ensures
        m == fill(x as int, y as int, w as int, h as int, hex),
{
    Mark { shape: Shape::Fill(Rect::new(x, y, w, h)), color: rgb_from_hex(hex) }
}

fn hline_mark(x0: i32, x1: i32, y: i32, hex: u32) -> (m: Mark)
    ensures
        m == hline(x0 as int, x1 as int, y as int, hex),
{
    Mark { shape: Shape::HLine(x0, x1, y), color: rgb_from_hex(hex) }
}

fn vline_mark(x: i32, y0: i32, y1: i32, hex: u32) -> (m: Mark)
    ensures
        m == vline(x as int, y0 as int, y1 as int, hex),
{
    Mark { shape: Shape::VLine(x, y0, y1), color: rgb_from_hex(hex) }
}

fn border_mark(x: i32, y: i32, w: i32, h: i32, hex: u32) -> (m: Mark)
    ensures
        m == border(x as int, y as int, w as int, h as int, hex),
{
    Mark { shape: Shape::Border(Rect::new(x, y, w, h)), color: rgb_from_hex(hex) }
}

fn disc_mark(cx: i32, cy: i32, r: i32, hex: u32) -> (m: Mark)
    ensures
        m == disc(cx as int, cy as int, r as int, hex),
{
    Mark { shape: Shape::Disc(cx, cy, r), color: rgb_from_hex(hex) }
}

/// The walls of a room (render coordinates) `t` pixels thick, stretched past
/// the corners, with a highlight along the top and the left.
pub open spec fn room_walls(r: Rect, t: int) -> Seq<Mark> {
    seq![
        fill(r.x - t, r.y - t, r.w + 2 * t, t, WALL),
        fill(r.x - t, r.y + r.h, r.w + 2 * t, t, WALL),
        fill(r.x - t, r.y - t, t, r.h + 2 * t, WALL),
        fill(r.x + r.w, r.y - t, t, r.h + 2 * t, WALL),
        hline(r.x - t, r.x + r.w + t - 1, r.y - t, WALL_HI),
        vline(r.x - t, r.y - t, r.y + r.h + t - 1, WALL_HI),
    ]
}

fn room_wall_marks(r: Rect, t: i32) -> (v: Vec<Mark>)
    requires
        0 <= t <= 100,
        0 <= r.x <= 10_000,
        0 <= r.y <= 10_000,
        0 <= r.w <= 10_000,
        0 <= r.h <= 10_000,
    ensures
        v@ == room_walls(r, t as int),
{
    let x0 = r.x - t;
    let y0 = r.y - t;
    let ww = r.w + 2 * t;
    let hh = r.h + 2 * t;
    let xr = r.x + r.w;
    let yb = r.y + r.h;
    let x1 = r.x + r.w + t - 1;
    let y1 = r.y + r.h + t - 1;
    vec![
        fill_mark(x0, y0, ww, t, WALL),
        fill_mark(x0, yb, ww, t, WALL),
        fill_mark(x0, y0, t, hh, WALL),
        fill_mark(xr, y0, t, hh, WALL),
        hline_mark(x0, x1, y0, WALL_HI),
        vline_mark(x0, y0, y1, WALL_HI),
    ]
}

/// The gap of an inner door: from just inside the open room's east wall to
/// just inside the right column's west wall.
pub open spec fn inner_door_gap(d: DoorV, t: int) -> Mark {
    fill(400 - t, (d.y - d.h / 2) / 2, 412 - 400 + 2 * t, d.h / 2, BG)
}

fn inner_door_mark(d: DoorV, t: i32) -> (m: Mark)
    requires
        0 <= t <= 100,
        d.y - d.h / 2 >= 0,
        0 <= d.h <= 10_000,
        d.y <= 10_000,
    ensures
        m == inner_door_gap(d, t as int),
{
    let o = open_room();
    let inner_gap_x = h(o.x + o.w) - t;
    let total_span = h(meeting_room().x) - h(o.x + o.w) + 2 * t;
    fill_mark(inner_gap_x, h(d.y - d.h / 2), total_span, h(d.h), BG)
}

/// The walls of the three rooms, the west door's gap and the two inner doors.
pub open spec fn wall_marks() -> Seq<Mark> {
    room_walls(Rect { x: 48, y: 36, w: 352, h: 256 }, 3)
        + room_walls(Rect { x: 412, y: 36, w: 180, h: 121 }, 3)
        + room_walls(Rect { x: 412, y: 163, w: 180, h: 129 }, 3)
        + seq![
            fill(45, 164, 3, 32, BG),
            inner_door_gap(DoorV { x: 800, y: 193, h: 60 }, 3),
            inner_door_gap(DoorV { x: 800, y: 455, h: 60 }, 3),
        ]
}

/// Draws the walls (see `wall_marks`).
pub fn draw_walls(fb: &mut RenderFrame)
    requires
        old(fb).wf(),
    ensures
        painted_over(*old(fb), *final(fb), wall_marks()),
{
    let t = h(WALL_THICKNESS);
    let r = hr(open_room());
    let mut marks = room_wall_marks(r, t);
    let mut more = room_wall_marks(hr(meeting_room()), t);
    marks.append(&mut more);
    let mut more = room_wall_marks(hr(lab_room()), t);
    marks.append(&mut more);
    marks.push(fill_mark(r.x - t, h(door().y), t, h(door().h), BG));
    marks.push(inner_door_mark(meeting_door(), t));
    marks.push(inner_door_mark(lab_door(), t));
    assert(marks@ =~= wall_marks());
    paint(fb, &marks);
}


/// Painting two lists one after the other paints their concatenation.
pub proof fn lemma_painted_concat(a: RenderFrame, b: RenderFrame, c: RenderFrame, m1: Seq<Mark>, m2: Seq<Mark>)
    requires
        painted_over(a, b, m1),
        painted_over(b, c, m2),
    ensures
        painted_over(a, c, m1 + m2),
{
    assert forall|x: int, y: int| inside(a.w(), a.h(), x, y) implies #[trigger] c.pixel(x, y) == drawn(m1 + m2, a, x, y) by {
        lemma_drawn_concat(a, b, m1, m2, x, y);
    }
}

proof fn lemma_drawn_concat(a: RenderFrame, b: RenderFrame, m1: Seq<Mark>, m2: Seq<Mark>, x: int, y: int)
    requires
        b.pixel(x, y) == drawn(m1, a, x, y),
    ensures
        drawn(m2, b, x, y) == drawn(m1 + m2, a, x, y),
    decreases m2.len(),
{
    if m2.len() == 0 {
        assert(m1 + m2 =~= m1);
    } else {
        lemma_drawn_concat(a, b, m1, m2.drop_last(), x, y);
        assert((m1 + m2).drop_last() =~= m1 + m2.drop_last());
        assert((m1 + m2).last() == m2.last());
    }
}

/// Both lists in range, so is their concatenation.
pub proof fn lemma_marks_ok_concat(m1: Seq<Mark>, m2: Seq<Mark>)
    requires
        marks_ok(m1),
        marks_ok(m2),
    ensures
        marks_ok(m1 + m2),
{
    assert forall|i: int| 0 <= i < (m1 + m2).len() implies shape_ok(#[trigger] (m1 + m2)[i].shape) by {
        if i < m1.len() {
            assert((m1 + m2)[i] == m1[i]);
        } else {
            assert((m1 + m2)[i] == m2[i - m1.len()]);
        }
    }
}

/// Appends `more` to `v`, keeping the list in range.
fn add_marks(v: &mut Vec<Mark>, more: Vec<Mark>)
    requires
        marks_ok(old(v)@),
        marks_ok(more@),
    ensures
        final(v)@ == old(v)@ + more@,
        marks_ok(final(v)@),
{
    let mut more = more;
    proof {
        lemma_marks_ok_concat(v@, more@);
    }
    v.append(&mut more);
}

// ------------------------------------------------------------ floor

/// The tile whose corner is `(x, y)` in the tiling of `r` by `tw`
/// by `th` tiles: colour `odd` when its row and column add up to an odd
/// number, else `even`.
pub open spec fn tile(r: Rect, tw: int, th: int, x: int, y: int, odd: u32, even: u32) -> Mark {
    let parity = ((y - r.y) / th + (x - r.x) / tw) % 2;
    fill(x, y, tw, th, if parity == 1 { odd } else { even })
}

/// The tiles of one row, from column corner `x` to the right edge of `r`.
pub open spec fn tile_row(r: Rect, tw: int, th: int, x: int, y: int, odd: u32, even: u32) -> Seq<Mark>
    decreases r.x + r.w - x + tw,
{
    if tw <= 0 || x >= r.x + r.w {
        Seq::empty()
    } else {
        seq![tile(r, tw, th, x, y, odd, even)] + tile_row(r, tw, th, x + tw, y, odd, even)
    }
}

/// The rows of tiles from row corner `y` to the bottom edge of `r`; the last
/// row and column may stick out past `r`.
pub open spec fn tile_rows(r: Rect, tw: int, th: int, y: int, odd: u32, even: u32) -> Seq<Mark>
    decreases r.y + r.h - y + th,
{
    if th <= 0 || y >= r.y + r.h {
        Seq::empty()
    } else {
        tile_row(r, tw, th, r.x as int, y, odd, even) + tile_rows(r, tw, th, y + th, odd, even)
    }
}

/// Horizontal lines from `x0` to `x1` on rows `y, y + step, ...` below `y_end`.
pub open spec fn hgrid(x0: int, x1: int, y: int, y_end: int, step: int, hex: u32) -> Seq<Mark>
    decreases y_end - y + step,
{
    if step <= 0 || y >= y_end {
        Seq::empty()
    } else {
        seq![hline(x0, x1, y, hex)] + hgrid(x0, x1, y + step, y_end, step, hex)
    }
}

/// Vertical lines from `y0` to `y1` on columns `x, x + step, ...` left of `x_end`.
pub open spec fn vgrid(y0: int, y1: int, x: int, x_end: int, step: int, hex: u32) -> Seq<Mark>
    decreases x_end - x + step,
{
    if step <= 0 || x >= x_end {
        Seq::empty()
    } else {
        seq![vline(x, y0, y1, hex)] + vgrid(y0, y1, x + step, x_end, step, hex)
    }
}

/// Rectangles of the layout whose arithmetic stays far from the limits.
pub open spec fn small_rect(r: Rect) -> bool {
    0 <= r.x <= 10_000 && 0 <= r.y <= 10_000 && 0 <= r.w <= 10_000 && 0 <= r.h <= 10_000
}

/// Appends the tiling of `r` (see `tile_rows`).
fn push_tiles(v: &mut Vec<Mark>, r: Rect, tw: i32, th: i32, odd: u32, even: u32)
    requires
        marks_ok(old(v)@),
        small_rect(r),
        1 <= tw <= 100,
        1 <= th <= 100,
    ensures
        final(v)@ == old(v)@ + tile_rows(r, tw as int, th as int, r.y as int, odd, even),
        marks_ok(final(v)@),
{
    let ghost total = old(v)@ + tile_rows(r, tw as int, th as int, r.y as int, odd, even);
    let mut y = r.y;
    proof {
        assert(v@ + tile_rows(r, tw as int, th as int, y as int, odd, even) =~= total);
    }
    while y < r.y + r.h
        invariant
            marks_ok(v@),
            small_rect(r),
            1 <= tw <= 100,
            1 <= th <= 100,
            r.y <= y <= r.y + r.h + 100,
            v@ + tile_rows(r, tw as int, th as int, y as int, odd, even) == total,
        decreases r.y + r.h - y + th,
    {
        let mut x = r.x;
        let ghost row_start = v@;
        proof {
            assert(tile_rows(r, tw as int, th as int, y as int, odd, even) == tile_row(r, tw as int, th as int, r.x as int, y as int, odd, even) + tile_rows(r, tw as int, th as int, y + th, odd, even));
            assert(v@ + tile_row(r, tw as int, th as int, x as int, y as int, odd, even) + tile_rows(r, tw as int, th as int, y + th, odd, even) =~= total);
        }
        while x < r.x + r.w
            invariant
                marks_ok(v@),
                small_rect(r),
                1 <= tw <= 100,
                1 <= th <= 100,
                r.y <= y < r.y + r.h,
                r.x <= x <= r.x + r.w + 100,
                v@ + tile_row(r, tw as int, th as int, x as int, y as int, odd, even) + tile_rows(r, tw as int, th as int, y + th, odd, even) == total,
            decreases r.x + r.w - x + tw,
        {
            let parity = ((y - r.y) / th + (x - r.x) / tw) % 2;
            let c = if parity == 1 { odd } else { even };
            let m = fill_mark(x, y, tw, th, c);
            assert(m == tile(r, tw as int, th as int, x as int, y as int, odd, even));
            let ghost before = v@;
            v.push(m);
            proof {
                assert(tile_row(r, tw as int, th as int, x as int, y as int, odd, even) == seq![m] + tile_row(r, tw as int, th as int, x + tw, y as int, odd, even));
                assert(v@ + tile_row(r, tw as int, th as int, x + tw, y as int, odd, even) + tile_rows(r, tw as int, th as int, y + th, odd, even) =~= total);
                assert forall|i: int| 0 <= i < v@.len() implies shape_ok(#[trigger] v@[i].shape) by {
                    if i < before.len() {
                        assert(v@[i] == before[i]);
                    }
                }
            }
            x = x + tw;
        }
        proof {
            assert(tile_row(r, tw as int, th as int, x as int, y as int, odd, even) =~= Seq::<Mark>::empty());
            assert(v@ + tile_rows(r, tw as int, th as int, y + th, odd, even) =~= total);
        }
        y = y + th;
    }
    proof {
        assert(tile_rows(r, tw as int, th as int, y as int, odd, even) =~= Seq::<Mark>::empty());
        assert(v@ =~= total);
    }
}

/// Appends horizontal lines (see `hgrid`).
fn push_hgrid(v: &mut Vec<Mark>, x0: i32, x1: i32, y_start: i32, y_end: i32, step: i32, hex: u32)
    requires
        marks_ok(old(v)@),
        0 <= y_start <= 10_000,
        0 <= y_end <= 10_000,
        1 <= step <= 100,
    ensures
        final(v)@ == old(v)@ + hgrid(x0 as int, x1 as int, y_start as int, y_end as int, step as int, hex),
        marks_ok(final(v)@),
{
    let ghost total = old(v)@ + hgrid(x0 as int, x1 as int, y_start as int, y_end as int, step as int, hex);
    let mut y = y_start;
    proof {
        assert(v@ + hgrid(x0 as int, x1 as int, y as int, y_end as int, step as int, hex) =~= total);
    }
    while y < y_end
        invariant
            marks_ok(v@),
            0 <= y_start <= y <= 10_100,
            0 <= y_end <= 10_000,
            1 <= step <= 100,
            v@ + hgrid(x0 as int, x1 as int, y as int, y_end as int, step as int, hex) == total,
        decreases y_end - y + step,
    {
        let m = hline_mark(x0, x1, y, hex);
        let ghost before = v@;
        v.push(m);
        proof {
            assert(hgrid(x0 as int, x1 as int, y as int, y_end as int, step as int, hex) == seq![m] + hgrid(x0 as int, x1 as int, y + step, y_end as int, step as int, hex));
            assert(v@ + hgrid(x0 as int, x1 as int, y + step, y_end as int, step as int, hex) =~= total);
            assert forall|i: int| 0 <= i < v@.len() implies shape_ok(#[trigger] v@[i].shape) by {
                if i < before.len() {
                    assert(v@[i] == before[i]);
                }
            }
        }
        y = y + step;
    }
    proof {
        assert(v@ =~= total);
    }
}

/// Appends vertical lines (see `vgrid`).
fn push_vgrid(v: &mut Vec<Mark>, y0: i32, y1: i32, x_start: i32, x_end: i32, step: i32, hex: u32)
    requires
        marks_ok(old(v)@),
        0 <= x_start <= 10_000,
        0 <= x_end <= 10_000,
        1 <= step <= 100,
    ensures
        final(v)@ == old(v)@ + vgrid(y0 as int, y1 as int, x_start as int, x_end as int, step as int, hex),
        marks_ok(final(v)@),
{
    let ghost total = old(v)@ + vgrid(y0 as int, y1 as int, x_start as int, x_end as int, step as int, hex);
    let mut x = x_start;
    proof {
        assert(v@ + vgrid(y0 as int, y1 as int, x as int, x_end as int, step as int, hex) =~= total);
    }
    while x < x_end
        invariant
            marks_ok(v@),
            0 <= x_start <= x <= 10_100,
            0 <= x_end <= 10_000,
            1 <= step <= 100,
            v@ + vgrid(y0 as int, y1 as int, x as int, x_end as int, step as int, hex) == total,
        decreases x_end - x + step,
    {
        let m = vline_mark(x, y0, y1, hex);
        let ghost before = v@;
        v.push(m);
        proof {
            assert(vgrid(y0 as int, y1 as int, x as int, x_end as int, step as int, hex) == seq![m] + vgrid(y0 as int, y1 as int, x + step, x_end as int, step as int, hex));
            assert(v@ + vgrid(y0 as int, y1 as int, x + step, x_end as int, step as int, hex) =~= total);
            assert forall|i: int| 0 <= i < v@.len() implies shape_ok(#[trigger] v@[i].shape) by {
                if i < before.len() {
                    assert(v@[i] == before[i]);
                }
            }
        }
        x = x + step;
    }
    proof {
        assert(v@ =~= total);
    }
}

/// The open room in render coordinates.
pub open spec fn open_r() -> Rect {
    Rect { x: 48, y: 36, w: 352, h: 256 }
}

/// The meeting room in render coordinates.
pub open spec fn meeting_r() -> Rect {
    Rect { x: 412, y: 36, w: 180, h: 121 }
}

/// The lab in render coordinates.
pub open spec fn lab_r() -> Rect {
    Rect { x: 412, y: 163, w: 180, h: 129 }
}

/// The floor: 8 by 16 wooden strips in the open room with a dark line
/// every 16 rows, 16 by 16 carpet in the meeting room, 16 by 16 tiles in
/// the lab with a grid over them.
pub open spec fn floor_marks() -> Seq<Mark> {
    let o = open_r();
    let m = meeting_r();
    let l = lab_r();
    tile_rows(o, 8, 16, o.y as int, FLOOR_A, FLOOR_B)
        + hgrid(o.x as int, o.x + o.w - 1, o.y + 16, o.y + o.h, 16, FLOOR_LINE)
        + tile_rows(m, 16, 16, m.y as int, FLOOR_MEETING_A, FLOOR_MEETING_B)
        + tile_rows(l, 16, 16, l.y as int, FLOOR_LAB_A, FLOOR_LAB_B)
        + hgrid(l.x as int, l.x + l.w - 1, l.y + 16, l.y + l.h, 16, LAB_GRID)
        + vgrid(l.y as int, l.y + l.h - 1, l.x + 16, l.x + l.w, 16, LAB_GRID)
}

fn floor_mark_list() -> (v: Vec<Mark>)
    ensures
        v@ == floor_marks(),
        marks_ok(v@),
{
    let o = hr(open_room());
    let m = hr(meeting_room());
    let l = hr(lab_room());
    let mut v: Vec<Mark> = Vec::new();
    assert(marks_ok(v@));
    push_tiles(&mut v, o, 8, 16, FLOOR_A, FLOOR_B);
    push_hgrid(&mut v, o.x, o.x + o.w - 1, o.y + 16, o.y + o.h, 16, FLOOR_LINE);
    push_tiles(&mut v, m, 16, 16, FLOOR_MEETING_A, FLOOR_MEETING_B);
    push_tiles(&mut v, l, 16, 16, FLOOR_LAB_A, FLOOR_LAB_B);
    push_hgrid(&mut v, l.x, l.x + l.w - 1, l.y + 16, l.y + l.h, 16, LAB_GRID);
    push_vgrid(&mut v, l.y, l.y + l.h - 1, l.x + 16, l.x + l.w, 16, LAB_GRID);
    assert(v@ =~= floor_marks());
    v
}

/// Draws the floor of the three rooms (see `floor_marks`).
pub fn draw_floor(fb: &mut RenderFrame)
    requires
        old(fb).wf(),
    ensures
        painted_over(*old(fb), *final(fb), floor_marks()),
{
    let marks = floor_mark_list();
    paint(fb, &marks);
}


// ------------------------------------------------------------ furniture

/// A small round chair at `(cx, cy)` with its backrest plate above the seat,
/// or below it when `north` (chairs on the north side of the table face south).
pub open spec fn round_chair(cx: int, cy: int, north: bool) -> Seq<Mark> {
    seq![
        fill(cx - 6, if north { cy + 3 } else { cy - 5 }, 12, 2, CHAIR_HI),
        disc(cx, cy, 4, CHAIR),
        disc(cx, cy, 1, CHAIR_HI),
    ]
}

fn round_chair_list(cx: i32, cy: i32, north: bool) -> (v: Vec<Mark>)
    requires
        0 <= cx <= 10_000,
        0 <= cy <= 10_000,
    ensures
        v@ == round_chair(cx as int, cy as int, north),
        marks_ok(v@),
{
    let bw = h(24);
    let bx = cx - bw / 2;
    let by = if north { cy + 3 } else { cy - 5 };
    let r = h(9);
    let v = vec![fill_mark(bx, by, bw, 2, CHAIR_HI), disc_mark(cx, cy, r, CHAIR), disc_mark(cx, cy, 1, CHAIR_HI)];
    assert(v@ =~= round_chair(cx as int, cy as int, north));
    v
}

/// A desk centred on `(d.x, d.y)` (world): a two-tone slab with an edge, a
/// monitor with its glow and stand, and a keyboard.
pub open spec fn desk_marks(d: DeskSeat) -> Seq<Mark> {
    let x = (d.x - 48) / 2;
    let y = (d.y - 23) / 2;
    let cx = d.x / 2;
    let my = y + 2;
    seq![
        fill(x, y + 20, 48, 3, DESK_SHADE),
        fill(x, y, 48, 21, DESK_TOP),
        border(x, y, 48, 21, DESK_EDGE),
        fill(cx - 9, my - 1, 19, 10, WALL),
        fill(cx - 8, my, 17, 8, MONITOR),
        fill(cx - 7, my + 1, 15, 6, MONITOR_GLOW),
        fill(cx - 2, my + 8, 4, 2, MOUSE),
        fill(cx - 9, y + 17, 18, 3, KEYBOARD),
    ]
}

/// The chair south of a desk.
pub open spec fn desk_chair(d: DeskSeat) -> Seq<Mark> {
    round_chair(d.x / 2, (d.y + 39) / 2, false)
}

fn desk_list(d: &DeskSeat) -> (v: Vec<Mark>)
    requires
        48 <= d.x <= 10_000,
        23 <= d.y <= 10_000,
    ensures
        v@ == desk_marks(*d),
        marks_ok(v@),
{
    let x = h(d.x - DESK_W / 2);
    let y = h(d.y - DESK_H / 2);
    let w = h(DESK_W);
    let dh = h(DESK_H);
    let mw = h(34);
    let mh = h(16);
    let mx = h(d.x) - mw / 2;
    let my = y + 2;
    let kw = h(36);
    let kx = h(d.x) - kw / 2;
    let ky = y + dh - 6;
    let shade_y = y + dh - 3;
    let top_h = dh - 2;
    let stand_x = h(d.x) - 2;
    let stand_y = my + mh;
    let bezel_x = mx - 1;
    let bezel_y = my - 1;
    let glow_x = mx + 1;
    let glow_y = my + 1;
    let glow_w = mw - 2;
    let glow_h = mh - 2;
    let v = vec![
        fill_mark(x, shade_y, w, 3, DESK_SHADE),
        fill_mark(x, y, w, top_h, DESK_TOP),
        border_mark(x, y, w, top_h, DESK_EDGE),
        fill_mark(bezel_x, bezel_y, mw + 2, mh + 2, WALL),
        fill_mark(mx, my, mw, mh, MONITOR),
        fill_mark(glow_x, glow_y, glow_w, glow_h, MONITOR_GLOW),
        fill_mark(stand_x, stand_y, 4, 2, MOUSE),
        fill_mark(kx, ky, kw, 3, KEYBOARD),
    ];
    assert(v@ =~= desk_marks(*d));
    v
}

/// The first `n` desks with their chairs, in layout order.
pub open spec fn desks_upto(n: int) -> Seq<Mark>
    decreases n,
{
    if n <= 0 {
        Seq::empty()
    } else {
        desks_upto(n - 1) + desk_marks(desk_seat_at(n - 1)) + desk_chair(desk_seat_at(n - 1))
    }
}

fn desks_list() -> (v: Vec<Mark>)
    ensures
        v@ == desks_upto(12),
        marks_ok(v@),
{
    let seats = desk_seats();
    let mut v: Vec<Mark> = Vec::new();
    let mut i: usize = 0;
    proof {
        assert(v@ =~= desks_upto(0));
    }
    while i < 12
        invariant
            seats@.len() == 12,
            forall|k: int| 0 <= k < 12 ==> seats@[k] == desk_seat_at(k),
            i <= 12,
            v@ == desks_upto(i as int),
            marks_ok(v@),
        decreases 12 - i,
    {
        let d = seats[i];
        assert(d == desk_seat_at(i as int));
        assert(200 <= d.x <= 680 && 180 <= d.y <= 500);
        add_marks(&mut v, desk_list(&d));
        add_marks(&mut v, round_chair_list(h(d.x), h(d.y + DESK_H / 2 + 16), false));
        i = i + 1;
    }
    v
}

/// Draws the twelve desks and their chairs (see `desks_upto`).
pub fn draw_desks(fb: &mut RenderFrame)
    requires
        old(fb).wf(),
    ensures
        painted_over(*old(fb), *final(fb), desks_upto(12)),
{
    let marks = desks_list();
    paint(fb, &marks);
}

/// The meeting room's furniture without chairs: the whiteboard with its
/// tray, the conference table and two laptops on it.
pub open spec fn meeting_table_marks() -> Seq<Mark> {
    seq![
        fill(451, 40, 102, 13, WHITEBOARD_FRAME),
        fill(452, 41, 100, 11, WHITEBOARD_BODY),
        fill(452, 53, 100, 1, WHITEBOARD_FRAME),
        fill(447, 115, 110, 3, DESK_SHADE),
        fill(447, 88, 110, 28, DESK_TOP),
        border(447, 88, 110, 28, DESK_EDGE),
        fill(453, 93, 9, 6, WHITEBOARD_BODY),
        fill(542, 93, 9, 6, WHITEBOARD_BODY),
    ]
}

fn meeting_table_list() -> (v: Vec<Mark>)
    ensures
        v@ == meeting_table_marks(),
        marks_ok(v@),
{
    let room = meeting_room();
    let wb_w = h(200);
    let wb_h = if h(22) >= 6 { h(22) } else { 6 };
    let wb_x = h(room.x) + (h(room.w) - wb_w) / 2;
    let wb_y = h(room.y) + h(10);
    let t = table();
    let tx = h(t.cx - t.w / 2);
    let ty = h(t.cy - t.h / 2);
    let tw = h(t.w);
    let th = h(t.h);
    let lap_h = if h(12) >= 4 { h(12) } else { 4 };
    let frame_x = wb_x - 1;
    let frame_y = wb_y - 1;
    let tray_y = wb_y + wb_h + 1;
    let shade_y = ty + th - 3;
    let top_h = th - 2;
    let lap1_x = tx + h(12);
    let lap2_x = tx + tw - h(30);
    let lap_y = ty + h(10);
    let v = vec![
        fill_mark(frame_x, frame_y, wb_w + 2, wb_h + 2, WHITEBOARD_FRAME),
        fill_mark(wb_x, wb_y, wb_w, wb_h, WHITEBOARD_BODY),
        fill_mark(wb_x, tray_y, wb_w, 1, WHITEBOARD_FRAME),
        fill_mark(tx, shade_y, tw, 3, DESK_SHADE),
        fill_mark(tx, ty, tw, top_h, DESK_TOP),
        border_mark(tx, ty, tw, top_h, DESK_EDGE),
        fill_mark(lap1_x, lap_y, h(18), lap_h, WHITEBOARD_BODY),
        fill_mark(lap2_x, lap_y, h(18), lap_h, WHITEBOARD_BODY),
    ];
    assert(v@ =~= meeting_table_marks());
    v
}

/// The chairs of the first `n` meeting seats.
pub open spec fn meeting_chairs_upto(n: int) -> Seq<Mark>
    decreases n,
{
    if n <= 0 {
        Seq::empty()
    } else {
        let s = meeting_seat_at(n - 1);
        meeting_chairs_upto(n - 1) + round_chair(s.x / 2, s.y / 2, s.side == MeetingSide::North)
    }
}

/// The meeting room: table and whiteboard, then the four chairs.
pub open spec fn meeting_room_marks() -> Seq<Mark> {
    meeting_table_marks() + meeting_chairs_upto(4)
}

fn meeting_room_list() -> (v: Vec<Mark>)
    ensures
        v@ == meeting_room_marks(),
        marks_ok(v@),
{
    let mut v = meeting_table_list();
    let seats = meeting_seats();
    let mut i: usize = 0;
    proof {
        assert(v@ =~= meeting_table_marks() + meeting_chairs_upto(0));
    }
    while i < 4
        invariant
            seats@.len() == 4,
            forall|k: int| 0 <= k < 4 ==> seats@[k] == meeting_seat_at(k),
            i <= 4,
            v@ == meeting_table_marks() + meeting_chairs_upto(i as int),
            marks_ok(v@),
        decreases 4 - i,
    {
        let s = seats[i];
        assert(s == meeting_seat_at(i as int));
        assert(944 <= s.x <= 1064 && 163 <= s.y <= 251);
        let north = match s.side {
            MeetingSide::North => true,
            MeetingSide::South => false,
        };
        let ghost before = v@;
        add_marks(&mut v, round_chair_list(h(s.x), h(s.y), north));
        proof {
            assert(v@ =~= meeting_table_marks() + meeting_chairs_upto(i + 1));
        }
        i = i + 1;
    }
    v
}

/// Draws the meeting room's furniture (see `meeting_room_marks`).
pub fn draw_meeting_room(fb: &mut RenderFrame)
    requires
        old(fb).wf(),
    ensures
        painted_over(*old(fb), *final(fb), meeting_room_marks()),
{
    let marks = meeting_room_list();
    paint(fb, &marks);
}

/// Slot `i` of the server rack: a dark slot with two lights.
pub open spec fn rack_slot(i: int) -> Seq<Mark> {
    let ry = 257 + (4 + i * 9) / 2;
    seq![fill(578, ry, 9, 3, WALL), fill(579, ry + 1, 1, 1, LED), fill(581, ry + 1, 1, 1, DESK_EDGE)]
}

/// The first `n` rack slots.
pub open spec fn rack_slots_upto(n: int) -> Seq<Mark>
    decreases n,
{
    if n <= 0 {
        Seq::empty()
    } else {
        rack_slots_upto(n - 1) + rack_slot(n - 1)
    }
}

/// The monitor and oscilloscope of the bench station centred on world `cx`.
pub open spec fn station_marks(cx: int) -> Seq<Mark> {
    let mx = cx / 2 - 6;
    let my: int = 183;
    let ox = mx + 16;
    seq![
        fill(mx - 1, my - 1, 15, 9, WALL),
        fill(mx, my, 13, 7, MONITOR),
        fill(mx + 1, my + 1, 11, 5, SCOPE),
        hline(mx + 1, mx + 10, my + 2, SCOPE_TRACE),
        hline(mx + 1, mx + 10, my + 4, SCOPE_TRACE),
        fill(ox, my, 10, 7, SCOPE),
        border(ox, my, 10, 7, BENCH_EDGE),
        hline(ox + 1, ox + 8, my + 3, SCOPE_TRACE),
    ]
}

fn station_list(cx_world: i32, by_world: i32) -> (v: Vec<Mark>)
    requires
        12 <= cx_world <= 10_000,
        by_world == 362,
    ensures
        v@ == station_marks(cx_world as int),
        marks_ok(v@),
{
    let mw = h(26);
    let mh = if h(14) >= 4 { h(14) } else { 4 };
    let mx = h(cx_world) - mw / 2;
    let my = h(by_world) + 2;
    let mut v = vec![];
    let bezel_x = mx - 1;
    let bezel_y = my - 1;
    v.push(fill_mark(bezel_x, bezel_y, mw + 2, mh + 2, WALL));
    v.push(fill_mark(mx, my, mw, mh, MONITOR));
    v.push(fill_mark(mx + 1, my + 1, mw - 2, mh - 2, SCOPE));
    let offs: [i32; 3] = [1, 3, 5];
    let mut k: usize = 0;
    while k < 3
        invariant
            offs@ == seq![1i32, 3, 5],
            mw == 13,
            mh == 7,
            my == 183,
            mx == cx_world / 2 - 6,
            k <= 3,
            v@ == station_marks(cx_world as int).take(3 + (if k >= 2 { 2 } else { k as int })),
        decreases 3 - k,
    {
        let y = my + 1 + offs[k];
        if y < my + mh - 1 {
            v.push(hline_mark(mx + 1, mx + mw - 3, y, SCOPE_TRACE));
        }
        proof {
            assert(v@ =~= station_marks(cx_world as int).take(3 + (if k + 1 >= 2 { 2 } else { k + 1 })));
        }
        k = k + 1;
    }
    let ow = h(20);
    let oh = if h(14) >= 4 { h(14) } else { 4 };
    let ox = mx + mw + 3;
    let oy = my;
    v.push(fill_mark(ox, oy, ow, oh, SCOPE));
    v.push(border_mark(ox, oy, ow, oh, BENCH_EDGE));
    v.push(hline_mark(ox + 1, ox + ow - 2, oy + oh / 2, SCOPE_TRACE));
    assert(v@ =~= station_marks(cx_world as int));
    v
}

/// The stations at the first `n` bench positions.
pub open spec fn stations_upto(n: int) -> Seq<Mark>
    decreases n,
{
    if n <= 0 {
        Seq::empty()
    } else {
        stations_upto(n - 1) + station_marks(seq![894int, 1004, 1114][n - 1])
    }
}

/// The chairs of the first `n` lab stations.
pub open spec fn lab_chairs_upto(n: int) -> Seq<Mark>
    decreases n,
{
    if n <= 0 {
        Seq::empty()
    } else {
        let s = lab_station_at(n - 1);
        lab_chairs_upto(n - 1) + round_chair(s.x / 2, s.y / 2, true)
    }
}

/// The lab: the server rack with its five slots, the workbench, the three
/// stations on it and their chairs.
pub open spec fn lab_room_marks() -> Seq<Mark> {
    seq![fill(577, 257, 11, 26, BUILD_BOARD_BG), border(577, 257, 11, 26, BENCH_EDGE)]
        + rack_slots_upto(5)
        + seq![
            fill(424, 197, 156, 3, BENCH_SHADE),
            fill(424, 181, 156, 17, BENCH_TOP),
            border(424, 181, 156, 17, BENCH_EDGE),
        ]
        + stations_upto(3)
        + lab_chairs_upto(3)
}

fn lab_room_list() -> (v: Vec<Mark>)
    ensures
        v@ == lab_room_marks(),
        marks_ok(v@),
{
    let room = lab_room();
    let rack_x = h(room.x + room.w - 30);
    let rack_y = h(room.y + room.h - 70);
    let rack_w = h(22);
    let rack_h = h(52);
    let mut v = vec![
        fill_mark(rack_x, rack_y, rack_w, rack_h, BUILD_BOARD_BG),
        border_mark(rack_x, rack_y, rack_w, rack_h, BENCH_EDGE),
    ];
    let ghost head = v@;
    let slot_h = if h(6) >= 2 { h(6) } else { 2 };
    let mut i: i32 = 0;
    proof {
        assert(v@ =~= head + rack_slots_upto(0));
    }
    while i < 5
        invariant
            rack_x == 577,
            rack_y == 257,
            rack_w == 11,
            slot_h == 3,
            0 <= i <= 5,
            head == seq![fill(577, 257, 11, 26, BUILD_BOARD_BG), border(577, 257, 11, 26, BENCH_EDGE)],
            v@ == head + rack_slots_upto(i as int),
            marks_ok(v@),
        decreases 5 - i,
    {
        let ry = rack_y + h(4 + i * 9);
        let led_y = ry + 1;
        let slot = vec![
            fill_mark(rack_x + 1, ry, rack_w - 2, slot_h, WALL),
            fill_mark(rack_x + 2, led_y, 1, 1, LED),
            fill_mark(rack_x + 4, led_y, 1, 1, DESK_EDGE),
        ];
        assert(slot@ =~= rack_slot(i as int));
        add_marks(&mut v, slot);
        proof {
            assert(v@ =~= head + rack_slots_upto(i + 1));
        }
        i = i + 1;
    }
    let b = hr(bench());
    let shade_y = b.y + b.h - 3;
    let top_h = b.h - 2;
    let bench_marks = vec![
        fill_mark(b.x, shade_y, b.w, 3, BENCH_SHADE),
        fill_mark(b.x, b.y, b.w, top_h, BENCH_TOP),
        border_mark(b.x, b.y, b.w, top_h, BENCH_EDGE),
    ];
    add_marks(&mut v, bench_marks);
    let ghost upto_bench = v@;
    let xs = lab_station_xs();
    let by = bench().y;
    let mut k: usize = 0;
    proof {
        assert(v@ =~= upto_bench + stations_upto(0));
    }
    while k < 3
        invariant
            xs@ == seq![894i32, 1004, 1114],
            by == 362,
            k <= 3,
            v@ == upto_bench + stations_upto(k as int),
            marks_ok(v@),
        decreases 3 - k,
    {
        add_marks(&mut v, station_list(xs[k], by));
        proof {
            assert(v@ =~= upto_bench + stations_upto(k + 1));
        }
        k = k + 1;
    }
    let ghost upto_stations = v@;
    let stations = lab_stations();
    let mut j: usize = 0;
    proof {
        assert(v@ =~= upto_stations + lab_chairs_upto(0));
    }
    while j < 3
        invariant
            stations@.len() == 3,
            forall|q: int| 0 <= q < 3 ==> stations@[q] == lab_station_at(q),
            j <= 3,
            v@ == upto_stations + lab_chairs_upto(j as int),
            marks_ok(v@),
        decreases 3 - j,
    {
        let s = stations[j];
        assert(s == lab_station_at(j as int));
        assert(894 <= s.x <= 1114 && s.y == 418);
        add_marks(&mut v, round_chair_list(h(s.x), h(s.y), true));
        proof {
            assert(v@ =~= upto_stations + lab_chairs_upto(j + 1));
        }
        j = j + 1;
    }
    assert(v@ =~= lab_room_marks());
    v
}

/// Draws the lab's furniture (see `lab_room_marks`).
pub fn draw_lab_room(fb: &mut RenderFrame)
    requires
        old(fb).wf(),
    ensures
        painted_over(*old(fb), *final(fb), lab_room_marks()),
{
    let marks = lab_room_list();
    paint(fb, &marks);
}


// ------------------------------------------------------------ windows

/// The frame of a window: a frame bar, its glass and a mullion in the middle.
pub open spec fn window_frame(w: WindowRec) -> Seq<Mark> {
    let fx = w.x / 2 - 10;
    let fy = w.y / 2 - 1;
    seq![fill(fx, fy, 20, 3, WINDOW_FRAME), fill(fx + 1, fy + 1, 18, 1, WINDOW_GLASS), vline(fx + 10, fy + 1, fy + 1, WINDOW_FRAME)]
}

fn window_frame_list(w: &WindowRec) -> (v: Vec<Mark>)
    requires
        0 <= w.x <= 10_000,
        2 <= w.y <= 10_000,
    ensures
        v@ == window_frame(*w),
        marks_ok(v@),
{
    let fw = h(WINDOW_W);
    let fh = if h(WINDOW_H) >= 2 { h(WINDOW_H) } else { 2 };
    let fx = h(w.x) - fw / 2;
    let fy = h(w.y) - fh / 2;
    let gw = if fw - 2 >= 1 { fw - 2 } else { 1 };
    let gh = if fh - 2 >= 1 { fh - 2 } else { 1 };
    let mid = fx + fw / 2;
    let top = fy + 1;
    let bottom = fy + fh - 2;
    let v = vec![
        fill_mark(fx, fy, fw, fh, WINDOW_FRAME),
        fill_mark(fx + 1, fy + 1, gw, gh, WINDOW_GLASS),
        vline_mark(mid, top, bottom, WINDOW_FRAME),
    ];
    assert(v@ =~= window_frame(*w));
    v
}

/// The frames of the first `n` windows.
pub open spec fn window_frames_upto(n: int) -> Seq<Mark>
    decreases n,
{
    if n <= 0 {
        Seq::empty()
    } else {
        window_frames_upto(n - 1) + window_frame(window_recs()[n - 1])
    }
}

/// Draws the windows: first `spill`, the light each window throws on the
/// floor, then the nine window frames over it.
pub fn draw_windows(fb: &mut RenderFrame, spill: &Vec<Mark>)
    requires
        old(fb).wf(),
        marks_ok(spill@),
    ensures
        painted_over(*old(fb), *final(fb), spill@ + window_frames_upto(9)),
{
    let ws = windows();
    let mut v: Vec<Mark> = Vec::new();
    let mut i: usize = 0;
    proof {
        assert(v@ =~= window_frames_upto(0));
    }
    while i < 9
        invariant
            ws@ == window_recs(),
            i <= 9,
            v@ == window_frames_upto(i as int),
            marks_ok(v@),
        decreases 9 - i,
    {
        let w = ws[i];
        assert(w == window_recs()[i as int]);
        assert(240 <= w.x <= 1144 && 69 <= w.y <= 587);
        add_marks(&mut v, window_frame_list(&w));
        i = i + 1;
    }
    let ghost before = *fb;
    paint(fb, spill);
    let ghost mid = *fb;
    paint(fb, &v);
    proof {
        lemma_painted_concat(before, mid, *fb, spill@, v@);
    }
}

// ------------------------------------------------------------ background

/// The whole static scene on a `w` by `h` frame: the background colour, the
/// floor, the window light `spill` and the window frames, the walls, the
/// desks, the meeting room and the lab, in that order.
pub open spec fn static_marks(w: int, h: int, spill: Seq<Mark>) -> Seq<Mark> {
    seq![fill(0, 0, w, h, BG)]
        + floor_marks()
        + (spill + window_frames_upto(9))
        + wall_marks()
        + desks_upto(12)
        + meeting_room_marks()
        + lab_room_marks()
}

/// Draws the static scene (see `static_marks`).
pub fn draw_static_background(fb: &mut RenderFrame, spill: &Vec<Mark>)
    requires
        old(fb).wf(),
        old(fb).w() <= i32::MAX,
        old(fb).h() <= i32::MAX,
        marks_ok(spill@),
    ensures
        painted_over(*old(fb), *final(fb), static_marks(old(fb).w(), old(fb).h(), spill@)),
{
    let ghost f0 = *fb;
    let bg = fill_mark(0, 0, fb.width() as i32, fb.height() as i32, BG);
    paint_mark(fb, bg);
    let ghost f1 = *fb;
    draw_floor(fb);
    let ghost f2 = *fb;
    draw_windows(fb, spill);
    let ghost f3 = *fb;
    draw_walls(fb);
    let ghost f4 = *fb;
    draw_desks(fb);
    let ghost f5 = *fb;
    draw_meeting_room(fb);
    let ghost f6 = *fb;
    draw_lab_room(fb);
    proof {
        let m0 = seq![fill(0, 0, f0.w(), f0.h(), BG)];
        lemma_painted_concat(f0, f1, f2, m0, floor_marks());
        lemma_painted_concat(f0, f2, f3, m0 + floor_marks(), spill@ + window_frames_upto(9));
        lemma_painted_concat(f0, f3, f4, m0 + floor_marks() + (spill@ + window_frames_upto(9)), wall_marks());
        lemma_painted_concat(
            f0,
            f4,
            f5,
            m0 + floor_marks() + (spill@ + window_frames_upto(9)) + wall_marks(),
            desks_upto(12),
        );
        lemma_painted_concat(
            f0,
            f5,
            f6,
            m0 + floor_marks() + (spill@ + window_frames_upto(9)) + wall_marks() + desks_upto(12),
            meeting_room_marks(),
        );
        lemma_painted_concat(
            f0,
            f6,
            *fb,
            m0 + floor_marks() + (spill@ + window_frames_upto(9)) + wall_marks() + desks_upto(12)
                + meeting_room_marks(),
            lab_room_marks(),
        );
    }
}

} // verus!
