//! Layout constants and simple geometric types of the office world, in
//! world pixels (1280 x 640).

use vstd::prelude::*;

verus! {

#[derive(Clone, Copy, Debug, PartialEq, Eq, Structural)]
pub struct Point {
    pub x: i32,
    pub y: i32,
}

#[derive(Clone, Copy, Debug, PartialEq, Eq, Structural)]
pub struct Rect {
    pub x: i32,
    pub y: i32,
    pub w: i32,
    pub h: i32,
}

impl Point {
    pub fn new(x: i32, y: i32) -> (r: Self)
        ensures
            r == (Point { x, y }),
    {
        Point { x, y }
    }
}

impl Rect {
    pub fn new(x: i32, y: i32, w: i32, h: i32) -> (r: Self)
        ensures
            r == (Rect { x, y, w, h }),
    {
        Rect { x, y, w, h }
    }

    /// Exclusive right edge.
    pub fn right(&self) -> (r: i32)
        requires
            i32::MIN <= self.x + self.w <= i32::MAX,
        ensures
            r == self.x + self.w,
    {
        self.x + self.w
    }

    /// Exclusive bottom edge.
    pub fn bottom(&self) -> (r: i32)
        requires
            i32::MIN <= self.y + self.h <= i32::MAX,
        ensures
            r == self.y + self.h,
    {
        self.y + self.h
    }

    /// Centre, rounding each half-extent toward zero.
    pub fn center(&self) -> (r: Point)
        requires
            i32::MIN <= self.x + self.w / 2 <= i32::MAX,
            i32::MIN <= self.y + self.h / 2 <= i32::MAX,
        ensures
            r == (Point { x: (self.x + half(self.w)) as i32, y: (self.y + half(self.h)) as i32 }),
    {
        Point { x: self.x + self.w / 2, y: self.y + self.h / 2 }
    }

    /// Whether `p` lies in the rectangle, both edges included.
    pub fn contains(&self, p: Point) -> (r: bool)
        requires
            i32::MIN <= self.x + self.w <= i32::MAX,
            i32::MIN <= self.y + self.h <= i32::MAX,
        ensures
            r == (self.x <= p.x <= self.x + self.w && self.y <= p.y <= self.y + self.h),
    {
        p.x >= self.x && p.x <= self.x + self.w && p.y >= self.y && p.y <= self.y + self.h
    }
}

/// Division by two rounding toward zero, as Rust's `/` does.
pub open spec fn half(v: i32) -> int {
    if v >= 0 {
        v as int / 2
    } else {
        -((-(v as int)) / 2)
    }
}

pub const WORLD_W: i32 = 1280;
pub const WORLD_H: i32 = 640;

pub fn open_room() -> (r: Rect)
    ensures
        r == (Rect { x: 96, y: 72, w: 704, h: 512 }),
{
    Rect { x: 96, y: 72, w: 704, h: 512 }
}

pub const RIGHT_COL_X: i32 = 824;
pub const RIGHT_COL_W: i32 = 360;
pub const RIGHT_COL_GAP_Y: i32 = 320;
pub const RIGHT_COL_WALL: i32 = 12;

pub fn meeting_room() -> (r: Rect)
    ensures
        r == (Rect { x: 824, y: 72, w: 360, h: 242 }),
{
    Rect { x: 824, y: 72, w: 360, h: 242 }
}

pub fn lab_room() -> (r: Rect)
    ensures
        r == (Rect { x: 824, y: 326, w: 360, h: 258 }),
{
    Rect { x: 824, y: 326, w: 360, h: 258 }
}

/// The west door of the open room.
pub fn door() -> (r: Rect)
    ensures
        r == (Rect { x: 96, y: 328, w: 10, h: 64 }),
{
    Rect { x: 96, y: 328, w: 10, h: 64 }
}

/// A door in a vertical wall: its x, centre y and height.
#[derive(Clone, Copy, Debug, PartialEq, Eq, Structural)]
pub struct DoorV {
    pub x: i32,
    pub y: i32,
    pub h: i32,
}

pub fn meeting_door() -> (r: DoorV)
    ensures
        r == (DoorV { x: 800, y: 193, h: 60 }),
{
    DoorV { x: 800, y: 193, h: 60 }
}

pub fn lab_door() -> (r: DoorV)
    ensures
        r == (DoorV { x: 800, y: 455, h: 60 }),
{
    DoorV { x: 800, y: 455, h: 60 }
}

pub const OUTSIDE_X: i32 = 40;

pub fn desk_cols() -> (r: [i32; 4])
    ensures
        r@ == seq![200i32, 360, 520, 680],
{
    [200, 360, 520, 680]
}
pub fn desk_rows() -> (r: [i32; 3])
    ensures
        r@ == seq![180i32, 340, 500],
{
    [180, 340, 500]
}
pub const DESK_W: i32 = 96;
pub const DESK_H: i32 = 46;

pub const SEAT_OFFSET_Y: i32 = 44;
pub const APPROACH_OFFSET_Y: i32 = 76;

#[derive(Clone, Copy, Debug, PartialEq, Eq, Structural)]
pub struct Table {
    pub cx: i32,
    pub cy: i32,
    pub w: i32,
    pub h: i32,
}

pub fn table() -> (r: Table)
    ensures
        r == (Table { cx: 1004, cy: 207, w: 220, h: 60 }),
{
    Table { cx: 1004, cy: 207, w: 220, h: 60 }
}

pub fn bench() -> (r: Rect)
    ensures
        r == (Rect { x: 848, y: 362, w: 312, h: 38 }),
{
    Rect { x: 848, y: 362, w: 312, h: 38 }
}

pub fn lab_station_xs() -> (r: [i32; 3])
    ensures
        r@ == seq![894i32, 1004, 1114],
{
    [894, 1004, 1114]
}

/// Vertical halls, just outside the desk columns.
pub const HALLWAY_LEFT_X: i32 = 130;
pub const HALLWAY_RIGHT_X: i32 = 776;
pub const NORTH_CORRIDOR_Y: i32 = 125;

/// Horizontal corridors: the north corridor, then one per desk row at the
/// desks' approach height.
pub fn corridor_ys() -> (r: [i32; 4])
    ensures
        r@ == seq![125i32, 256, 416, 576],
{
    [125, 256, 416, 576]
}

pub const WINDOW_W: i32 = 40;
pub const WINDOW_H: i32 = 6;
pub const WALL_THICKNESS: i32 = 6;

#[derive(Clone, Copy, Debug, PartialEq, Eq, Structural)]
pub enum Spill {
    North,
    South,
}

#[derive(Clone, Copy, Debug, PartialEq, Eq, Structural)]
pub struct WindowRec {
    pub x: i32,
    pub y: i32,
    pub spill: Spill,
    pub room_edge_y: i32,
}

/// Exterior windows: three on the open room's north wall, two on its south
/// wall, two on the meeting room's north wall, two on the lab's south wall.
pub open spec fn window_recs() -> Seq<WindowRec> {
    seq![
    WindowRec { x: 240, y: 69, spill: Spill::South, room_edge_y: 72 },
    WindowRec { x: 448, y: 69, spill: Spill::South, room_edge_y: 72 },
    WindowRec { x: 656, y: 69, spill: Spill::South, room_edge_y: 72 },
    WindowRec { x: 320, y: 587, spill: Spill::North, room_edge_y: 584 },
    WindowRec { x: 576, y: 587, spill: Spill::North, room_edge_y: 584 },
    WindowRec { x: 864, y: 69, spill: Spill::South, room_edge_y: 72 },
    WindowRec { x: 1144, y: 69, spill: Spill::South, room_edge_y: 72 },
    WindowRec { x: 944, y: 587, spill: Spill::North, room_edge_y: 584 },
    WindowRec { x: 1064, y: 587, spill: Spill::North, room_edge_y: 584 },
    ]
}

/// The exterior windows (see `window_recs`).
pub fn windows() -> (r: [WindowRec; 9])
    ensures
        r@ == window_recs(),
{
    [
    WindowRec { x: 240, y: 69, spill: Spill::South, room_edge_y: 72 },
    WindowRec { x: 448, y: 69, spill: Spill::South, room_edge_y: 72 },
    WindowRec { x: 656, y: 69, spill: Spill::South, room_edge_y: 72 },
    WindowRec { x: 320, y: 587, spill: Spill::North, room_edge_y: 584 },
    WindowRec { x: 576, y: 587, spill: Spill::North, room_edge_y: 584 },
    WindowRec { x: 864, y: 69, spill: Spill::South, room_edge_y: 72 },
    WindowRec { x: 1144, y: 69, spill: Spill::South, room_edge_y: 72 },
    WindowRec { x: 944, y: 587, spill: Spill::North, room_edge_y: 584 },
    WindowRec { x: 1064, y: 587, spill: Spill::North, room_edge_y: 584 },
]
}

/// Overflow spots against the open room's east wall.
pub fn queue_spots() -> (r: [Point; 4])
    ensures
        r@ == seq![Point { x: 752, y: 120 },
    Point { x: 752, y: 180 },
    Point { x: 752, y: 484 },
    Point { x: 752, y: 544 }],
{
    [
    Point { x: 752, y: 120 },
    Point { x: 752, y: 180 },
    Point { x: 752, y: 484 },
    Point { x: 752, y: 544 },
]
}

pub fn meeting_queue_spots() -> (r: [Point; 2])
    ensures
        r@ == seq![Point { x: 856, y: 132 }, Point { x: 1152, y: 132 }],
{
    [Point { x: 856, y: 132 }, Point { x: 1152, y: 132 }]
}

pub fn lab_queue_spots() -> (r: [Point; 2])
    ensures
        r@ == seq![Point { x: 856, y: 556 }, Point { x: 1152, y: 556 }],
{
    [Point { x: 856, y: 556 }, Point { x: 1152, y: 556 }]
}

#[derive(Clone, Copy, Debug, PartialEq, Eq, Structural)]
pub struct DeskSeat {
    pub x: i32,
    pub y: i32,
    pub seat_x: i32,
    pub seat_y: i32,
    pub approach_x: i32,
    pub approach_y: i32,
}

#[derive(Clone, Copy, Debug, PartialEq, Eq, Structural)]
pub enum MeetingSide {
    North,
    South,
}

#[derive(Clone, Copy, Debug, PartialEq, Eq, Structural)]
pub struct MeetingSeat {
    pub x: i32,
    pub y: i32,
    pub seat_x: i32,
    pub seat_y: i32,
    pub approach_x: i32,
    pub approach_y: i32,
    pub side: MeetingSide,
}

#[derive(Clone, Copy, Debug, PartialEq, Eq, Structural)]
pub struct LabStation {
    pub x: i32,
    pub y: i32,
    pub seat_x: i32,
    pub seat_y: i32,
    pub approach_x: i32,
    pub approach_y: i32,
}

pub open spec fn desk_col(c: int) -> i32 {
    if c == 0 {
        200
    } else if c == 1 {
        360
    } else if c == 2 {
        520
    } else {
        680
    }
}

pub open spec fn desk_row(r: int) -> i32 {
    if r == 0 {
        180
    } else if r == 1 {
        340
    } else {
        500
    }
}

/// Desk seat `i` in row-major order over `DESK_ROWS x DESK_COLS`.
pub open spec fn desk_seat_at(i: int) -> DeskSeat {
    let x = desk_col(i % 4);
    let y = desk_row(i / 4);
    DeskSeat {
        x,
        y,
        seat_x: x,
        seat_y: (y + SEAT_OFFSET_Y) as i32,
        approach_x: x,
        approach_y: (y + APPROACH_OFFSET_Y) as i32,
    }
}

/// Twelve desk seats, row-major: three rows of four.
pub fn desk_seats() -> (r: Vec<DeskSeat>)
    ensures
        r@.len() == 12,
        forall|i: int| 0 <= i < 12 ==> r@[i] == desk_seat_at(i),
{
    let rows: [i32; 3] = [180, 340, 500];
    let cols: [i32; 4] = [200, 360, 520, 680];
    let mut out: Vec<DeskSeat> = Vec::new();
    let mut r: usize = 0;
    while r < 3
        invariant
            r <= 3,
            rows@ == seq![180i32, 340, 500],
            cols@ == seq![200i32, 360, 520, 680],
            out@.len() == 4 * r,
            forall|i: int| 0 <= i < out@.len() ==> out@[i] == desk_seat_at(i),
        decreases 3 - r,
    {
        let y = rows[r];
        let mut c: usize = 0;
        while c < 4
            invariant
                r < 3,
                c <= 4,
                y == desk_row(r as int),
                cols@ == seq![200i32, 360, 520, 680],
                out@.len() == 4 * r + c,
                forall|i: int| 0 <= i < out@.len() ==> out@[i] == desk_seat_at(i),
            decreases 4 - c,
        {
            let x = cols[c];
            proof {
                let k = 4 * r + c;
                assert(k % 4 == c && k / 4 == r) by (nonlinear_arith)
                    requires
                        k == 4 * r + c,
                        c < 4,
                ;
            }
            out.push(
                DeskSeat {
                    x,
                    y,
                    seat_x: x,
                    seat_y: y + SEAT_OFFSET_Y,
                    approach_x: x,
                    approach_y: y + APPROACH_OFFSET_Y,
                },
            );
            c = c + 1;
        }
        r = r + 1;
    }
    out
}

pub const TABLE_NORTH_Y: i32 = 177;
pub const TABLE_SOUTH_Y: i32 = 237;

/// Meeting seat `i`: north then south side of the west chair column, then
/// north then south of the east column.
pub open spec fn meeting_seat_at(i: int) -> MeetingSeat {
    let cx: i32 = if i < 2 { 944 } else { 1064 };
    if i % 2 == 0 {
        MeetingSeat {
            x: cx,
            y: 163,
            seat_x: cx,
            seat_y: 155,
            approach_x: cx,
            approach_y: 127,
            side: MeetingSide::North,
        }
    } else {
        MeetingSeat {
            x: cx,
            y: 251,
            seat_x: cx,
            seat_y: 259,
            approach_x: cx,
            approach_y: 287,
            side: MeetingSide::South,
        }
    }
}

/// Four meeting seats, two per side of the table.
pub fn meeting_seats() -> (r: Vec<MeetingSeat>)
    ensures
        r@.len() == 4,
        forall|i: int| 0 <= i < 4 ==> r@[i] == meeting_seat_at(i),
{
    let mut out: Vec<MeetingSeat> = Vec::new();
    let cxs: [i32; 2] = [table().cx - 60, table().cx + 60];
    let mut k: usize = 0;
    while k < 2
        invariant
            k <= 2,
            cxs@ == seq![944i32, 1064],
            out@.len() == 2 * k,
            forall|i: int| 0 <= i < out@.len() ==> out@[i] == meeting_seat_at(i),
        decreases 2 - k,
    {
        let cx = cxs[k];
        out.push(
            MeetingSeat {
                x: cx,
                y: TABLE_NORTH_Y - 14,
                seat_x: cx,
                seat_y: TABLE_NORTH_Y - 22,
                approach_x: cx,
                approach_y: TABLE_NORTH_Y - 50,
                side: MeetingSide::North,
            },
        );
        out.push(
            MeetingSeat {
                x: cx,
                y: TABLE_SOUTH_Y + 14,
                seat_x: cx,
                seat_y: TABLE_SOUTH_Y + 22,
                approach_x: cx,
                approach_y: TABLE_SOUTH_Y + 50,
                side: MeetingSide::South,
            },
        );
        k = k + 1;
    }
    out
}

/// Lab station `i` along the bench.
pub open spec fn lab_station_at(i: int) -> LabStation {
    let cx: i32 = if i == 0 {
        894
    } else if i == 1 {
        1004
    } else {
        1114
    };
    LabStation { x: cx, y: 418, seat_x: cx, seat_y: 426, approach_x: cx, approach_y: 458 }
}

/// Three lab stations along the bench.
pub fn lab_stations() -> (r: Vec<LabStation>)
    ensures
        r@.len() == 3,
        forall|i: int| 0 <= i < 3 ==> r@[i] == lab_station_at(i),
{
    let seat_y = bench().y + bench().h + 26;
    let xs: [i32; 3] = [894, 1004, 1114];
    let mut out: Vec<LabStation> = Vec::new();
    let mut k: usize = 0;
    while k < 3
        invariant
            k <= 3,
            seat_y == 426,
            xs@ == seq![894i32, 1004, 1114],
            out@.len() == k,
            forall|i: int| 0 <= i < out@.len() ==> out@[i] == lab_station_at(i),
        decreases 3 - k,
    {
        let cx = xs[k];
        out.push(
            LabStation {
                x: cx,
                y: seat_y - 8,
                seat_x: cx,
                seat_y,
                approach_x: cx,
                approach_y: seat_y + 32,
            },
        );
        k = k + 1;
    }
    out
}

} // verus!
