//! The light each window throws on the floor: a trapezoid that widens from
//! the window's edge of the room ten frame pixels inward, each pixel tinted
//! from the floor tone of the room it falls in.

use vstd::prelude::*;
use crate::render::frame::in_rect;
use crate::render::geometry::{window_recs, windows, Spill, WindowRec};
use crate::render::palette::{hex_rgb, rgb_from_hex, Rgb, BG, FLOOR_A, FLOOR_B, FLOOR_LAB_A, FLOOR_LAB_B, FLOOR_MEETING_A, FLOOR_MEETING_B};
use crate::render::scene::{lab_r, marks_ok, meeting_r, open_r, Mark, Shape};
use crate::render::geometry::Rect;

verus! {

/// Which floor a frame pixel lies on.
#[derive(Clone, Copy, Debug, PartialEq, Eq, Structural)]
pub enum FloorZone {
    Meeting,
    Lab,
    Open,
    Outside,
}

/// The floor under pixel `(x, y)`: the meeting room, else the lab, else the
/// open room, else none.
pub open spec fn zone_at(x: int, y: int) -> FloorZone {
    if in_rect(meeting_r(), x, y) {
        FloorZone::Meeting
    } else if in_rect(lab_r(), x, y) {
        FloorZone::Lab
    } else if in_rect(open_r(), x, y) {
        FloorZone::Open
    } else {
        FloorZone::Outside
    }
}

/// The channel-wise mean of two colours, rounded down.
pub open spec fn mean(a: Rgb, b: Rgb) -> Rgb {
    Rgb(((a.0 + b.0) / 2) as u8, ((a.1 + b.1) / 2) as u8, ((a.2 + b.2) / 2) as u8)
}

/// The channel-wise mean of two colours, rounded down.
pub fn avg(a: Rgb, b: Rgb) -> (r: Rgb)
    ensures
        r == mean(a, b),
{
    Rgb(
        ((a.0 as u16 + b.0 as u16) / 2) as u8,
        ((a.1 as u16 + b.1 as u16) / 2) as u8,
        ((a.2 as u16 + b.2 as u16) / 2) as u8,
    )
}

/// The tone of a floor: the mean of its two tile colours, the backdrop
/// outside the rooms.
pub open spec fn zone_tone(z: FloorZone) -> Rgb {
    match z {
        FloorZone::Meeting => mean(hex_rgb(FLOOR_MEETING_A), hex_rgb(FLOOR_MEETING_B)),
        FloorZone::Lab => mean(hex_rgb(FLOOR_LAB_A), hex_rgb(FLOOR_LAB_B)),
        FloorZone::Open => mean(hex_rgb(FLOOR_A), hex_rgb(FLOOR_B)),
        FloorZone::Outside => hex_rgb(BG),
    }
}

/// The tone of a floor (see `zone_tone`).
pub fn floor_tone(z: FloorZone) -> (r: Rgb)
    ensures
        r == zone_tone(z),
{
    match z {
        FloorZone::Meeting => avg(rgb_from_hex(FLOOR_MEETING_A), rgb_from_hex(FLOOR_MEETING_B)),
        FloorZone::Lab => avg(rgb_from_hex(FLOOR_LAB_A), rgb_from_hex(FLOOR_LAB_B)),
        FloorZone::Open => avg(rgb_from_hex(FLOOR_A), rgb_from_hex(FLOOR_B)),
        FloorZone::Outside => rgb_from_hex(BG),
    }
}

fn in_r(r: Rect, x: i32, y: i32) -> (b: bool)
    requires
        0 <= r.x <= 1_000,
        0 <= r.y <= 1_000,
        0 <= r.w <= 1_000,
        0 <= r.h <= 1_000,
    ensures
        b == in_rect(r, x as int, y as int),
{
    x >= r.x && x < r.x + r.w && y >= r.y && y < r.y + r.h
}

/// The floor zone of pixel `(x, y)` (see `zone_at`).
pub fn floor_zone(x: i32, y: i32) -> (z: FloorZone)
    ensures
        z == zone_at(x as int, y as int),
{
    if in_r(Rect::new(412, 36, 180, 121), x, y) {
        FloorZone::Meeting
    } else if in_r(Rect::new(412, 163, 180, 129), x, y) {
        FloorZone::Lab
    } else if in_r(Rect::new(48, 36, 352, 256), x, y) {
        FloorZone::Open
    } else {
        FloorZone::Outside
    }
}

/// The floor tone under pixel `(x, y)`.
pub fn pick_floor(x: i32, y: i32) -> (r: Rgb)
    ensures
        r == zone_tone(zone_at(x as int, y as int)),
{
    floor_tone(floor_zone(x, y))
}

/// The window light's colour on each floor.
#[derive(Clone, Copy, Debug, PartialEq, Eq, Structural)]
pub struct SpillTints {
    pub meeting: Rgb,
    pub lab: Rgb,
    pub open: Rgb,
    pub outside: Rgb,
}

/// The window light's colour on the floor under `(x, y)`.
pub open spec fn tint_at(t: SpillTints, x: int, y: int) -> Rgb {
    match zone_at(x, y) {
        FloorZone::Meeting => t.meeting,
        FloorZone::Lab => t.lab,
        FloorZone::Open => t.open,
        FloorZone::Outside => t.outside,
    }
}

/// How many pixels the light reaches into the room.
pub const SPILL_DEPTH: i32 = 10;

/// Half the width of the light `k` rows away from the wall: 10 pixels at
/// the wall, 22 at its far edge, growing linearly and rounded to nearest.
pub open spec fn spill_half(k: int) -> int {
    10 + (12 * k + 5) / 10
}

/// The row of the light that sits `k` rows from the wall, at frame row `y`.
pub open spec fn spill_row(cx: int, y: int, k: int, t: SpillTints) -> Seq<Mark> {
    let half = spill_half(k);
    Seq::new((2 * half + 1) as nat, |i: int| Mark { shape: Shape::Dot((cx - half + i) as i32, y as i32), color: tint_at(t, cx - half + i, y) })
}

/// The wall row of a window's light: half its room edge.
pub open spec fn near_row(w: WindowRec) -> int {
    w.room_edge_y / 2
}

/// The topmost row of a window's light.
pub open spec fn top_row(w: WindowRec) -> int {
    match w.spill {
        Spill::South => near_row(w),
        Spill::North => near_row(w) - SPILL_DEPTH,
    }
}

/// The first `n` rows of a window's light, top to bottom.
pub open spec fn spill_rows(w: WindowRec, t: SpillTints, n: nat) -> Seq<Mark>
    decreases n,
{
    if n == 0 {
        Seq::empty()
    } else {
        let y = top_row(w) + n - 1;
        let k = match w.spill {
            Spill::South => y - near_row(w),
            Spill::North => near_row(w) - y,
        };
        spill_rows(w, t, (n - 1) as nat) + spill_row(w.x / 2, y, k, t)
    }
}

/// The light of the first `n` windows, window by window.
pub open spec fn spills_upto(t: SpillTints, n: nat) -> Seq<Mark>
    decreases n,
{
    if n == 0 {
        Seq::empty()
    } else {
        spills_upto(t, (n - 1) as nat) + spill_rows(window_recs()[n - 1], t, (SPILL_DEPTH + 1) as nat)
    }
}

fn tint(t: &SpillTints, x: i32, y: i32) -> (c: Rgb)
    ensures
        c == tint_at(*t, x as int, y as int),
{
    match floor_zone(x, y) {
        FloorZone::Meeting => t.meeting,
        FloorZone::Lab => t.lab,
        FloorZone::Open => t.open,
        FloorZone::Outside => t.outside,
    }
}

fn push_row(v: &mut Vec<Mark>, cx: i32, y: i32, k: i32, t: &SpillTints)
    requires
        0 <= cx <= 1_000,
        0 <= y <= 1_000,
        0 <= k <= SPILL_DEPTH,
    ensures
        final(v)@ == old(v)@ + spill_row(cx as int, y as int, k as int, *t),
{
    let half = 10 + (12 * k + 5) / 10;
    let ghost before = v@;
    let mut i: i32 = 0;
    while i <= 2 * half
        invariant
            0 <= cx <= 1_000,
            0 <= y <= 1_000,
            0 <= k <= SPILL_DEPTH,
            half == spill_half(k as int),
            0 <= i <= 2 * half + 1,
            v@ == before + spill_row(cx as int, y as int, k as int, *t).take(i as int),
        decreases 2 * half + 1 - i,
    {
        let x = cx - half + i;
        v.push(Mark { shape: Shape::Dot(x, y), color: tint(t, x, y) });
        proof {
            let row = spill_row(cx as int, y as int, k as int, *t);
            assert(row.take(i + 1) =~= row.take(i as int).push(row[i as int]));
        }
        i = i + 1;
    }
    proof {
        let row = spill_row(cx as int, y as int, k as int, *t);
        assert(row.take(i as int) =~= row);
    }
}

/// The light of every window (see `spills_upto`).
pub fn window_spill(t: &SpillTints) -> (v: Vec<Mark>)
    ensures
        v@ == spills_upto(*t, 9),
        marks_ok(v@),
{
    let ws = windows();
    let mut v: Vec<Mark> = Vec::new();
    let mut n: usize = 0;
    while n < 9
        invariant
            n <= 9,
            ws@ == window_recs(),
            v@ == spills_upto(*t, n as nat),
        decreases 9 - n,
    {
        let w = ws[n];
        assert(w == window_recs()[n as int]);
        let near = w.room_edge_y / 2;
        let top = match w.spill {
            Spill::South => near,
            Spill::North => near - SPILL_DEPTH,
        };
        let ghost before = v@;
        let mut j: i32 = 0;
        while j <= SPILL_DEPTH
            invariant
                0 <= j <= SPILL_DEPTH + 1,
                w == window_recs()[n as int],
                n < 9,
                near as int == near_row(w),
                top as int == top_row(w),
                v@ == before + spill_rows(w, *t, j as nat),
            decreases SPILL_DEPTH + 1 - j,
        {
            let y = top + j;
            let k = match w.spill {
                Spill::South => y - near,
                Spill::North => near - y,
            };
            push_row(&mut v, w.x / 2, y, k, t);
            j = j + 1;
        }
        n = n + 1;
    }
    proof {
        assert forall|i: int| 0 <= i < v@.len() implies crate::render::scene::shape_ok(#[trigger] v@[i].shape) by {
            lemma_spills_dots(*t, 9, i);
        }
    }
    v
}

proof fn lemma_rows_dots(w: WindowRec, t: SpillTints, n: nat, i: int)
    requires
        0 <= i < spill_rows(w, t, n).len(),
    ensures
        spill_rows(w, t, n)[i].shape is Dot,
    decreases n,
{
    if n > 0 {
        let rest = spill_rows(w, t, (n - 1) as nat);
        if i < rest.len() {
            lemma_rows_dots(w, t, (n - 1) as nat, i);
        }
    }
}

proof fn lemma_spills_dots(t: SpillTints, n: nat, i: int)
    requires
        0 <= i < spills_upto(t, n).len(),
    ensures
        spills_upto(t, n)[i].shape is Dot,
    decreases n,
{
    if n > 0 {
        let rest = spills_upto(t, (n - 1) as nat);
        if i < rest.len() {
            lemma_spills_dots(t, (n - 1) as nat, i);
        } else {
            lemma_rows_dots(window_recs()[n - 1], t, (SPILL_DEPTH + 1) as nat, i - rest.len());
        }
    }
}

} // verus!
