//! Small bitmap pictures drawn over the scene: the glyph above a sprite's
//! head and the character on its chest. A picture is rows of characters
//! where `#` paints and any other character leaves the pixel alone.

use vstd::prelude::*;
use crate::render::geometry::Rect;
use crate::render::fx::{FxStore, Halo};
use crate::render::glyph::{glyph_of, sim_glyph, GlyphKind};
use crate::render::scene_text::{agent_for, find_agent};
use crate::render::sim_store::{SimAnim, SimState};
use crate::state::agent::Agent;
use crate::render::palette::{hex_rgb, rgb_from_hex, Rgb, GLYPH_ERR, GLYPH_IDLE, GLYPH_LAB, GLYPH_LONG, GLYPH_PLAN, GLYPH_WALK};
use crate::render::scene::{marks_ok, paint, painted_over, Mark, Shape};
use crate::render::frame::RenderFrame;
use crate::render::bodies::{halve, pose_fits, poses_fit, Pose};
use crate::render::geometry::half;
use crate::text::chars_of;

verus! {

/// The characters of each row of a picture.
pub open spec fn rows_view(rows: Seq<Vec<char>>) -> Seq<Seq<char>> {
    Seq::new(rows.len(), |i: int| rows[i]@)
}

/// The glyph picture of a kind.
pub open spec fn glyph_art(kind: GlyphKind) -> Seq<Seq<char>> {
    match kind {
        GlyphKind::Error => seq![seq!['#', '#'], seq!['#', '#'], seq!['#', '#'], seq!['#', '#'], seq!['.', '.'], seq!['#', '#']],
        GlyphKind::VisitingLab => seq![
            seq!['.', '.', '#', '#', '#', '.', '.'], seq!['.', '.', '#', '.', '#', '.', '.'], seq!['.', '.', '#', '.', '#', '.', '.'], seq!['.', '#', '#', '.', '#', '#', '.'], seq!['.', '#', '.', '.', '.', '#', '.'], seq!['.', '#', '.', '.', '.', '#', '.'], seq!['.', '#', '#', '.', '#', '#', '.'], seq!['.', '.', '#', '#', '#', '.', '.'],
        ],
        GlyphKind::Idle => seq![
            seq!['.', '.', '.', '.', '#', '#', '#', '#'], seq!['.', '.', '.', '#', '.', '.', '#', '.'], seq!['.', '.', '#', '#', '#', '.', '.', '.'], seq!['.', '#', '#', '#', '.', '.', '.', '.'], seq!['#', '#', '.', '.', '.', '.', '.', '.'], seq!['#', '#', '#', '#', '.', '.', '.', '.'], seq!['.', '.', '.', '.', '.', '.', '.', '.'],
        ],
        GlyphKind::Walking => seq![seq!['#', '.', '#', '.', '#', '.', '#'], seq!['#', '.', '#', '.', '#', '.', '#']],
        GlyphKind::Plan => seq![
            seq!['.', '.', '#', '#', '.', '.'], seq!['.', '#', '#', '#', '#', '.'], seq!['#', '#', '#', '#', '#', '#'], seq!['#', '.', '.', '.', '.', '#'], seq!['#', '.', '#', '#', '.', '#'], seq!['#', '.', '.', '.', '.', '#'], seq!['#', '.', '#', '#', '.', '#'], seq!['#', '#', '#', '#', '#', '#'],
        ],
        GlyphKind::LongSeated => seq![seq!['#', '#', '#', '#', '#'], seq!['.', '.', '.', '#', '.'], seq!['.', '.', '#', '.', '.'], seq!['.', '#', '.', '.', '.'], seq!['#', '.', '.', '.', '.'], seq!['#', '#', '#', '#', '#']],
    }
}

/// The colour of a glyph kind, as a code.
pub open spec fn glyph_hex(kind: GlyphKind) -> u32 {
    match kind {
        GlyphKind::Error => GLYPH_ERR,
        GlyphKind::VisitingLab => GLYPH_LAB,
        GlyphKind::Idle => GLYPH_IDLE,
        GlyphKind::Walking => GLYPH_WALK,
        GlyphKind::Plan => GLYPH_PLAN,
        GlyphKind::LongSeated => GLYPH_LONG,
    }
}

/// The picture and colour of a glyph kind.
pub fn sprite(kind: GlyphKind) -> (r: (Vec<Vec<char>>, Rgb))
    ensures
        rows_view(r.0@) == glyph_art(kind),
        r.1 == hex_rgb(glyph_hex(kind)),
{
    let (art, hex) = match kind {
        GlyphKind::Error => (vec![vec!['#', '#'], vec!['#', '#'], vec!['#', '#'], vec!['#', '#'], vec!['.', '.'], vec!['#', '#']], GLYPH_ERR),
        GlyphKind::VisitingLab => (
            vec![vec!['.', '.', '#', '#', '#', '.', '.'], vec!['.', '.', '#', '.', '#', '.', '.'], vec!['.', '.', '#', '.', '#', '.', '.'], vec!['.', '#', '#', '.', '#', '#', '.'], vec!['.', '#', '.', '.', '.', '#', '.'], vec!['.', '#', '.', '.', '.', '#', '.'], vec!['.', '#', '#', '.', '#', '#', '.'], vec!['.', '.', '#', '#', '#', '.', '.']],
            GLYPH_LAB,
        ),
        GlyphKind::Idle => (
            vec![vec!['.', '.', '.', '.', '#', '#', '#', '#'], vec!['.', '.', '.', '#', '.', '.', '#', '.'], vec!['.', '.', '#', '#', '#', '.', '.', '.'], vec!['.', '#', '#', '#', '.', '.', '.', '.'], vec!['#', '#', '.', '.', '.', '.', '.', '.'], vec!['#', '#', '#', '#', '.', '.', '.', '.'], vec!['.', '.', '.', '.', '.', '.', '.', '.']],
            GLYPH_IDLE,
        ),
        GlyphKind::Walking => (vec![vec!['#', '.', '#', '.', '#', '.', '#'], vec!['#', '.', '#', '.', '#', '.', '#']], GLYPH_WALK),
        GlyphKind::Plan => (
            vec![vec!['.', '.', '#', '#', '.', '.'], vec!['.', '#', '#', '#', '#', '.'], vec!['#', '#', '#', '#', '#', '#'], vec!['#', '.', '.', '.', '.', '#'], vec!['#', '.', '#', '#', '.', '#'], vec!['#', '.', '.', '.', '.', '#'], vec!['#', '.', '#', '#', '.', '#'], vec!['#', '#', '#', '#', '#', '#']],
            GLYPH_PLAN,
        ),
        GlyphKind::LongSeated => (vec![vec!['#', '#', '#', '#', '#'], vec!['.', '.', '.', '#', '.'], vec!['.', '.', '#', '.', '.'], vec!['.', '#', '.', '.', '.'], vec!['#', '.', '.', '.', '.'], vec!['#', '#', '#', '#', '#']], GLYPH_LONG),
    };
    assert(rows_view(art@) =~= glyph_art(kind));
    (art, rgb_from_hex(hex))
}


/// How one `#` cell of a picture is painted.
#[derive(Clone, Copy, Debug, PartialEq, Eq, Structural)]
pub enum Stamp {
    /// A one-pixel filled rectangle.
    Block(Rgb),
    /// The pixel itself.
    Dot(Rgb),
    /// The four pixels next to it, left, right, above and below.
    Ring(Rgb),
}

/// The marks of one `#` cell at `(px, py)`.
pub open spec fn stamp_marks(s: Stamp, px: int, py: int) -> Seq<Mark> {
    match s {
        Stamp::Block(c) => seq![Mark { shape: Shape::Fill(Rect { x: px as i32, y: py as i32, w: 1, h: 1 }), color: c }],
        Stamp::Dot(c) => seq![Mark { shape: Shape::Dot(px as i32, py as i32), color: c }],
        Stamp::Ring(c) => seq![
            Mark { shape: Shape::Dot((px - 1) as i32, py as i32), color: c },
            Mark { shape: Shape::Dot((px + 1) as i32, py as i32), color: c },
            Mark { shape: Shape::Dot(px as i32, (py - 1) as i32), color: c },
            Mark { shape: Shape::Dot(px as i32, (py + 1) as i32), color: c },
        ],
    }
}

/// The marks of one row of a picture whose first cell is at `(x, y)`.
pub open spec fn row_stamps(row: Seq<char>, x: int, y: int, s: Stamp) -> Seq<Mark>
    decreases row.len(),
{
    if row.len() == 0 {
        Seq::empty()
    } else {
        row_stamps(row.drop_last(), x, y, s) + if row.last() == '#' {
            stamp_marks(s, x + row.len() - 1, y)
        } else {
            Seq::empty()
        }
    }
}

/// The marks of a picture whose top left cell is at `(x, y)`, row by row.
pub open spec fn art_stamps(art: Seq<Seq<char>>, x: int, y: int, s: Stamp) -> Seq<Mark>
    decreases art.len(),
{
    if art.len() == 0 {
        Seq::empty()
    } else {
        art_stamps(art.drop_last(), x, y, s) + row_stamps(art.last(), x, y + art.len() - 1, s)
    }
}

/// A picture small enough, drawn close enough to the frame, that every
/// coordinate fits comfortably.
pub open spec fn art_fits(art: Seq<Seq<char>>, x: int, y: int) -> bool {
    &&& art.len() <= 10_000
    &&& forall|i: int| 0 <= i < art.len() ==> (#[trigger] art[i]).len() <= 10_000
    &&& -1_150_000_000 <= x <= 1_150_000_000
    &&& -1_150_000_000 <= y <= 1_150_000_000
}

fn push_stamp(v: &mut Vec<Mark>, s: Stamp, px: i32, py: i32)
    requires
        -1_200_000_000 <= px <= 1_200_000_000,
        -1_200_000_000 <= py <= 1_200_000_000,
    ensures
        final(v)@ == old(v)@ + stamp_marks(s, px as int, py as int),
{
    match s {
        Stamp::Block(c) => v.push(Mark { shape: Shape::Fill(Rect::new(px, py, 1, 1)), color: c }),
        Stamp::Dot(c) => v.push(Mark { shape: Shape::Dot(px, py), color: c }),
        Stamp::Ring(c) => {
            v.push(Mark { shape: Shape::Dot(px - 1, py), color: c });
            v.push(Mark { shape: Shape::Dot(px + 1, py), color: c });
            v.push(Mark { shape: Shape::Dot(px, py - 1), color: c });
            v.push(Mark { shape: Shape::Dot(px, py + 1), color: c });
        },
    }
    assert(v@ =~= old(v)@ + stamp_marks(s, px as int, py as int));
}

/// Appends the marks of a picture (see `art_stamps`).
fn stamp_art(v: &mut Vec<Mark>, art: &Vec<Vec<char>>, x: i32, y: i32, s: Stamp)
    requires
        art_fits(rows_view(art@), x as int, y as int),
    ensures
        final(v)@ == old(v)@ + art_stamps(rows_view(art@), x as int, y as int, s),
{
    let ghost a = rows_view(art@);
    let mut r: usize = 0;
    proof {
        assert(a.take(0) =~= Seq::<Seq<char>>::empty());
        assert(v@ =~= old(v)@ + art_stamps(a.take(0), x as int, y as int, s));
    }
    while r < art.len()
        invariant
            a == rows_view(art@),
            art_fits(a, x as int, y as int),
            r <= a.len(),
            v@ == old(v)@ + art_stamps(a.take(r as int), x as int, y as int, s),
        decreases a.len() - r,
    {
        let row = &art[r];
        assert(row@ == a[r as int]);
        let ghost before = v@;
        let mut c: usize = 0;
        proof {
            assert(row@.take(0) =~= Seq::<char>::empty());
            assert(v@ =~= before + row_stamps(row@.take(0), x as int, y + r, s));
        }
        while c < row.len()
            invariant
                row@ == a[r as int],
                art_fits(a, x as int, y as int),
                r < a.len(),
                c <= row@.len(),
                v@ == before + row_stamps(row@.take(c as int), x as int, y + r, s),
            decreases row@.len() - c,
        {
            assert(row@.len() <= 10_000);
            proof {
                assert(row@.take(c + 1).drop_last() =~= row@.take(c as int));
                assert(row@.take(c + 1).last() == row@[c as int]);
            }
            if row[c] == '#' {
                let px = x + c as i32;
                let py = y + r as i32;
                push_stamp(v, s, px, py);
                assert(v@ =~= before + row_stamps(row@.take(c + 1), x as int, y + r, s));
            } else {
                assert(v@ =~= before + row_stamps(row@.take(c + 1), x as int, y + r, s));
            }
            c = c + 1;
        }
        proof {
            assert(row@.take(c as int) =~= row@);
            assert(a.take(r + 1).drop_last() =~= a.take(r as int));
            assert(a.take(r + 1).last() == a[r as int]);
            assert(v@ =~= old(v)@ + art_stamps(a.take(r + 1), x as int, y as int, s));
        }
        r = r + 1;
    }
    proof {
        assert(a.take(r as int) =~= a);
    }
}

/// Every stamp of a picture is a mark in range.
proof fn lemma_art_stamps_ok(art: Seq<Seq<char>>, x: int, y: int, s: Stamp)
    ensures
        marks_ok(art_stamps(art, x, y, s)),
    decreases art.len(),
{
    if art.len() > 0 {
        lemma_art_stamps_ok(art.drop_last(), x, y, s);
        lemma_row_stamps_ok(art.last(), x, y + art.len() - 1, s);
        crate::render::scene::lemma_marks_ok_concat(art_stamps(art.drop_last(), x, y, s), row_stamps(art.last(), x, y + art.len() - 1, s));
    }
}

proof fn lemma_row_stamps_ok(row: Seq<char>, x: int, y: int, s: Stamp)
    ensures
        marks_ok(row_stamps(row, x, y, s)),
    decreases row.len(),
{
    if row.len() > 0 {
        lemma_row_stamps_ok(row.drop_last(), x, y, s);
        let tail = if row.last() == '#' { stamp_marks(s, x + row.len() - 1, y) } else { Seq::empty() };
        crate::render::scene::lemma_marks_ok_concat(row_stamps(row.drop_last(), x, y, s), tail);
    }
}

/// Draws a picture with its top left cell at `(x, y)`: a one-pixel block of
/// `color` for every `#`.
pub fn draw_sprite(fb: &mut RenderFrame, art: &Vec<Vec<char>>, x: i32, y: i32, color: Rgb)
    requires
        old(fb).wf(),
        art_fits(rows_view(art@), x as int, y as int),
    ensures
        painted_over(*old(fb), *final(fb), art_stamps(rows_view(art@), x as int, y as int, Stamp::Block(color))),
{
    let mut marks: Vec<Mark> = Vec::new();
    stamp_art(&mut marks, art, x, y, Stamp::Block(color));
    proof {
        lemma_art_stamps_ok(rows_view(art@), x as int, y as int, Stamp::Block(color));
        assert(marks@ =~= art_stamps(rows_view(art@), x as int, y as int, Stamp::Block(color)));
    }
    paint(fb, &marks);
}

/// Where a glyph sits: centred on `cx`, its top row at `top`.
pub open spec fn glyph_marks(kind: GlyphKind, cx: int, top: int) -> Seq<Mark> {
    let art = glyph_art(kind);
    art_stamps(art, cx - art[0].len() / 2, top, Stamp::Block(hex_rgb(glyph_hex(kind))))
}

/// Appends the marks of the glyph of `kind` (see `glyph_marks`).
fn push_glyph(v: &mut Vec<Mark>, kind: GlyphKind, cx: i32, top: i32)
    requires
        -1_100_000_000 <= cx <= 1_100_000_000,
        -1_100_000_000 <= top <= 1_100_000_000,
    ensures
        final(v)@ == old(v)@ + glyph_marks(kind, cx as int, top as int),
{
    let (art, color) = sprite(kind);
    assert(glyph_art(kind).len() > 0 && glyph_art(kind)[0].len() <= 8) by {
        match kind {
            GlyphKind::Error => {},
            GlyphKind::VisitingLab => {},
            GlyphKind::Idle => {},
            GlyphKind::Walking => {},
            GlyphKind::Plan => {},
            GlyphKind::LongSeated => {},
        }
    }
    assert(art@.len() == rows_view(art@).len());
    assert(rows_view(art@)[0] == art@[0]@);
    let w = art[0].len();
    assert(w == glyph_art(kind)[0].len());
    let x = cx - (w / 2) as i32;
    proof {
        assert forall|i: int| 0 <= i < rows_view(art@).len() implies (#[trigger] rows_view(art@)[i]).len() <= 10_000 by {
            assert(rows_view(art@)[i] == glyph_art(kind)[i]);
        }
    }
    stamp_art(v, &art, x, top, Stamp::Block(color));
}

/// Draws the glyph of `kind` centred on `cx` with its top row at `top`.
pub fn draw_glyph(fb: &mut RenderFrame, kind: GlyphKind, cx: i32, top: i32)
    requires
        old(fb).wf(),
        -1_100_000_000 <= cx <= 1_100_000_000,
        -1_100_000_000 <= top <= 1_100_000_000,
    ensures
        painted_over(*old(fb), *final(fb), glyph_marks(kind, cx as int, top as int)),
{
    let mut marks: Vec<Mark> = Vec::new();
    push_glyph(&mut marks, kind, cx, top);
    proof {
        let art = glyph_art(kind);
        lemma_art_stamps_ok(art, cx - art[0].len() / 2, top as int, Stamp::Block(hex_rgb(glyph_hex(kind))));
        assert(marks@ =~= glyph_marks(kind, cx as int, top as int));
    }
    paint(fb, &marks);
}

/// How far above a sprite's anchor its glyph's top row sits.
pub const GLYPH_LIFT: i32 = 24;

/// The glyph marks of one sprite whose anchor is `(ax, ay)` in frame
/// pixels: nothing for a sprite that is gone or shows no glyph, else its
/// glyph centred on `ax` with its top row `GLYPH_LIFT` above `ay`. The
/// sprite's agent is the first one with its id. A sprite standing at world
/// pose `p` has its anchor at half its world position.
pub open spec fn sim_glyph_marks<M>(
    s: SimAnim<M>,
    ax: int,
    ay: int,
    agents: Seq<Agent>,
    halos: Seq<Halo>,
    now_ms: u64,
    error_glyph_ms: u64,
) -> Seq<Mark> {
    if s.state == SimState::Gone {
        Seq::empty()
    } else {
        let agent = match agent_for(agents, s.agent_id@) {
            Some(j) => Some(agents[j]),
            None => None,
        };
        match glyph_of(s.agent_id@, s.state, s.permission_mode@, s.seated_since_ms, agent, halos, now_ms, error_glyph_ms) {
            Some(k) => glyph_marks(k, ax, ay - GLYPH_LIFT),
            None => Seq::empty(),
        }
    }
}

/// The glyph marks of the first `n` sprites, in order.
pub open spec fn glyphs_marks<M>(
    sims: Seq<SimAnim<M>>,
    poses: Seq<Pose>,
    agents: Seq<Agent>,
    halos: Seq<Halo>,
    now_ms: u64,
    error_glyph_ms: u64,
    n: nat,
) -> Seq<Mark>
    decreases n,
{
    if n == 0 {
        Seq::empty()
    } else {
        let i = n - 1;
        glyphs_marks(sims, poses, agents, halos, now_ms, error_glyph_ms, (n - 1) as nat)
            + sim_glyph_marks(sims[i], half(poses[i].x), half(poses[i].y), agents, halos, now_ms, error_glyph_ms)
    }
}

proof fn lemma_glyphs_marks_ok<M>(
    sims: Seq<SimAnim<M>>,
    poses: Seq<Pose>,
    agents: Seq<Agent>,
    halos: Seq<Halo>,
    now_ms: u64,
    error_glyph_ms: u64,
    n: nat,
)
    requires
        n <= sims.len(),
    ensures
        marks_ok(glyphs_marks(sims, poses, agents, halos, now_ms, error_glyph_ms, n)),
    decreases n,
{
    if n > 0 {
        let i = n - 1;
        lemma_glyphs_marks_ok(sims, poses, agents, halos, now_ms, error_glyph_ms, (n - 1) as nat);
        let s = sims[i];
        let one = sim_glyph_marks(s, half(poses[i].x), half(poses[i].y), agents, halos, now_ms, error_glyph_ms);
        if s.state != SimState::Gone {
            let agent = match agent_for(agents, s.agent_id@) {
                Some(j) => Some(agents[j]),
                None => None,
            };
            match glyph_of(s.agent_id@, s.state, s.permission_mode@, s.seated_since_ms, agent, halos, now_ms, error_glyph_ms) {
                Some(k) => {
                    let art = glyph_art(k);
                    lemma_art_stamps_ok(art, half(poses[i].x) - art[0].len() / 2, half(poses[i].y) - GLYPH_LIFT, Stamp::Block(hex_rgb(glyph_hex(k))));
                },
                None => {},
            }
        }
        crate::render::scene::lemma_marks_ok_concat(glyphs_marks(sims, poses, agents, halos, now_ms, error_glyph_ms, (n - 1) as nat), one);
    }
}

/// Paints the glyph of every sprite still in the scene, after the bodies so
/// that it sits on top. `poses[i]` is where sprite `i` stands.
pub fn draw_glyphs<M, P>(
    fb: &mut RenderFrame,
    sims: &Vec<SimAnim<M>>,
    poses: &Vec<Pose>,
    agents: &Vec<Agent>,
    fx: &FxStore<P>,
    now_ms: u64,
    error_glyph_ms: u64,
)
    requires
        old(fb).wf(),
        poses@.len() == sims@.len(),
        poses_fit(poses@),
    ensures
        painted_over(
            *old(fb),
            *final(fb),
            glyphs_marks(sims@, poses@, agents@, fx.halos@, now_ms, error_glyph_ms, sims@.len()),
        ),
{
    let mut marks: Vec<Mark> = Vec::new();
    let mut i: usize = 0;
    while i < sims.len()
        invariant
            i <= sims@.len(),
            poses@.len() == sims@.len(),
            poses_fit(poses@),
            marks@ == glyphs_marks(sims@, poses@, agents@, fx.halos@, now_ms, error_glyph_ms, i as nat),
        decreases sims@.len() - i,
    {
        let s = &sims[i];
        assert(pose_fits(poses@[i as int]));
        let ax = halve(poses[i].x);
        let ay = halve(poses[i].y);
        let ghost before = marks@;
        if s.is_alive() {
            let agent = match find_agent(agents, s.agent_id.as_str()) {
                Some(j) => Some(&agents[j]),
                None => None,
            };
            let g = sim_glyph(s.agent_id.as_str(), s.state, s.permission_mode.as_str(), s.seated_since_ms, agent, fx, now_ms, error_glyph_ms);
            match g {
                Some(k) => push_glyph(&mut marks, k, ax, ay - GLYPH_LIFT),
                None => {},
            }
        }
        proof {
            assert(marks@ =~= before + sim_glyph_marks(sims@[i as int], half(poses@[i as int].x), half(poses@[i as int].y), agents@, fx.halos@, now_ms, error_glyph_ms));
        }
        i = i + 1;
    }
    proof {
        lemma_glyphs_marks_ok(sims@, poses@, agents@, fx.halos@, now_ms, error_glyph_ms, sims@.len());
    }
    paint(fb, &marks);
}

/// The 3 by 5 picture of a session label character, if it has one.
pub open spec fn label_art(c: char) -> Option<Seq<Seq<char>>> {
    match c {
        '1' => Some(seq![seq!['.', '#', '.'], seq!['#', '#', '.'], seq!['.', '#', '.'], seq!['.', '#', '.'], seq!['#', '#', '#']]),
        '2' => Some(seq![seq!['#', '#', '.'], seq!['.', '.', '#'], seq!['.', '#', '.'], seq!['#', '.', '.'], seq!['#', '#', '#']]),
        '3' => Some(seq![seq!['#', '#', '.'], seq!['.', '.', '#'], seq!['.', '#', '.'], seq!['.', '.', '#'], seq!['#', '#', '.']]),
        '4' => Some(seq![seq!['#', '.', '#'], seq!['#', '.', '#'], seq!['#', '#', '#'], seq!['.', '.', '#'], seq!['.', '.', '#']]),
        '5' => Some(seq![seq!['#', '#', '#'], seq!['#', '.', '.'], seq!['#', '#', '.'], seq!['.', '.', '#'], seq!['#', '#', '.']]),
        '6' => Some(seq![seq!['.', '#', '#'], seq!['#', '.', '.'], seq!['#', '#', '#'], seq!['#', '.', '#'], seq!['#', '#', '#']]),
        '7' => Some(seq![seq!['#', '#', '#'], seq!['.', '.', '#'], seq!['.', '#', '.'], seq!['.', '#', '.'], seq!['.', '#', '.']]),
        '8' => Some(seq![seq!['#', '#', '#'], seq!['#', '.', '#'], seq!['#', '#', '#'], seq!['#', '.', '#'], seq!['#', '#', '#']]),
        '9' => Some(seq![seq!['#', '#', '#'], seq!['#', '.', '#'], seq!['#', '#', '#'], seq!['.', '.', '#'], seq!['#', '#', '.']]),
        'A' => Some(seq![seq!['.', '#', '.'], seq!['#', '.', '#'], seq!['#', '#', '#'], seq!['#', '.', '#'], seq!['#', '.', '#']]),
        'B' => Some(seq![seq!['#', '#', '.'], seq!['#', '.', '#'], seq!['#', '#', '.'], seq!['#', '.', '#'], seq!['#', '#', '.']]),
        'C' => Some(seq![seq!['.', '#', '#'], seq!['#', '.', '.'], seq!['#', '.', '.'], seq!['#', '.', '.'], seq!['.', '#', '#']]),
        'D' => Some(seq![seq!['#', '#', '.'], seq!['#', '.', '#'], seq!['#', '.', '#'], seq!['#', '.', '#'], seq!['#', '#', '.']]),
        'E' => Some(seq![seq!['#', '#', '#'], seq!['#', '.', '.'], seq!['#', '#', '.'], seq!['#', '.', '.'], seq!['#', '#', '#']]),
        'F' => Some(seq![seq!['#', '#', '#'], seq!['#', '.', '.'], seq!['#', '#', '.'], seq!['#', '.', '.'], seq!['#', '.', '.']]),
        'G' => Some(seq![seq!['.', '#', '#'], seq!['#', '.', '.'], seq!['#', '.', '#'], seq!['#', '.', '#'], seq!['.', '#', '#']]),
        'H' => Some(seq![seq!['#', '.', '#'], seq!['#', '.', '#'], seq!['#', '#', '#'], seq!['#', '.', '#'], seq!['#', '.', '#']]),
        'J' => Some(seq![seq!['.', '.', '#'], seq!['.', '.', '#'], seq!['.', '.', '#'], seq!['#', '.', '#'], seq!['.', '#', '.']]),
        'K' => Some(seq![seq!['#', '.', '#'], seq!['#', '.', '#'], seq!['#', '#', '.'], seq!['#', '.', '#'], seq!['#', '.', '#']]),
        'L' => Some(seq![seq!['#', '.', '.'], seq!['#', '.', '.'], seq!['#', '.', '.'], seq!['#', '.', '.'], seq!['#', '#', '#']]),
        'M' => Some(seq![seq!['#', '.', '#'], seq!['#', '#', '#'], seq!['#', '#', '#'], seq!['#', '.', '#'], seq!['#', '.', '#']]),
        'N' => Some(seq![seq!['#', '.', '#'], seq!['#', '#', '#'], seq!['#', '#', '#'], seq!['#', '#', '#'], seq!['#', '.', '#']]),
        'P' => Some(seq![seq!['#', '#', '.'], seq!['#', '.', '#'], seq!['#', '#', '.'], seq!['#', '.', '.'], seq!['#', '.', '.']]),
        'Q' => Some(seq![seq!['.', '#', '.'], seq!['#', '.', '#'], seq!['#', '.', '#'], seq!['#', '#', '#'], seq!['.', '#', '#']]),
        'R' => Some(seq![seq!['#', '#', '.'], seq!['#', '.', '#'], seq!['#', '#', '.'], seq!['#', '.', '#'], seq!['#', '.', '#']]),
        'S' => Some(seq![seq!['.', '#', '#'], seq!['#', '.', '.'], seq!['.', '#', '.'], seq!['.', '.', '#'], seq!['#', '#', '.']]),
        'T' => Some(seq![seq!['#', '#', '#'], seq!['.', '#', '.'], seq!['.', '#', '.'], seq!['.', '#', '.'], seq!['.', '#', '.']]),
        'U' => Some(seq![seq!['#', '.', '#'], seq!['#', '.', '#'], seq!['#', '.', '#'], seq!['#', '.', '#'], seq!['.', '#', '.']]),
        'V' => Some(seq![seq!['#', '.', '#'], seq!['#', '.', '#'], seq!['#', '.', '#'], seq!['#', '.', '#'], seq!['.', '#', '.']]),
        'W' => Some(seq![seq!['#', '.', '#'], seq!['#', '.', '#'], seq!['#', '#', '#'], seq!['#', '#', '#'], seq!['#', '.', '#']]),
        'X' => Some(seq![seq!['#', '.', '#'], seq!['#', '.', '#'], seq!['.', '#', '.'], seq!['#', '.', '#'], seq!['#', '.', '#']]),
        'Y' => Some(seq![seq!['#', '.', '#'], seq!['#', '.', '#'], seq!['.', '#', '.'], seq!['.', '#', '.'], seq!['.', '#', '.']]),
        'Z' => Some(seq![seq!['#', '#', '#'], seq!['.', '.', '#'], seq!['.', '#', '.'], seq!['#', '.', '.'], seq!['#', '#', '#']]),
        _ => None,
    }
}

/// The picture of a session label character (see `label_art`).
pub fn label_glyph(c: char) -> (r: Option<Vec<Vec<char>>>)
    ensures
        match r {
            Some(rows) => label_art(c) == Some(rows_view(rows@)),
            None => label_art(c) is None,
        },
{
    let rows: Vec<Vec<char>> = match c {
        '1' => vec![vec!['.', '#', '.'], vec!['#', '#', '.'], vec!['.', '#', '.'], vec!['.', '#', '.'], vec!['#', '#', '#']],
        '2' => vec![vec!['#', '#', '.'], vec!['.', '.', '#'], vec!['.', '#', '.'], vec!['#', '.', '.'], vec!['#', '#', '#']],
        '3' => vec![vec!['#', '#', '.'], vec!['.', '.', '#'], vec!['.', '#', '.'], vec!['.', '.', '#'], vec!['#', '#', '.']],
        '4' => vec![vec!['#', '.', '#'], vec!['#', '.', '#'], vec!['#', '#', '#'], vec!['.', '.', '#'], vec!['.', '.', '#']],
        '5' => vec![vec!['#', '#', '#'], vec!['#', '.', '.'], vec!['#', '#', '.'], vec!['.', '.', '#'], vec!['#', '#', '.']],
        '6' => vec![vec!['.', '#', '#'], vec!['#', '.', '.'], vec!['#', '#', '#'], vec!['#', '.', '#'], vec!['#', '#', '#']],
        '7' => vec![vec!['#', '#', '#'], vec!['.', '.', '#'], vec!['.', '#', '.'], vec!['.', '#', '.'], vec!['.', '#', '.']],
        '8' => vec![vec!['#', '#', '#'], vec!['#', '.', '#'], vec!['#', '#', '#'], vec!['#', '.', '#'], vec!['#', '#', '#']],
        '9' => vec![vec!['#', '#', '#'], vec!['#', '.', '#'], vec!['#', '#', '#'], vec!['.', '.', '#'], vec!['#', '#', '.']],
        'A' => vec![vec!['.', '#', '.'], vec!['#', '.', '#'], vec!['#', '#', '#'], vec!['#', '.', '#'], vec!['#', '.', '#']],
        'B' => vec![vec!['#', '#', '.'], vec!['#', '.', '#'], vec!['#', '#', '.'], vec!['#', '.', '#'], vec!['#', '#', '.']],
        'C' => vec![vec!['.', '#', '#'], vec!['#', '.', '.'], vec!['#', '.', '.'], vec!['#', '.', '.'], vec!['.', '#', '#']],
        'D' => vec![vec!['#', '#', '.'], vec!['#', '.', '#'], vec!['#', '.', '#'], vec!['#', '.', '#'], vec!['#', '#', '.']],
        'E' => vec![vec!['#', '#', '#'], vec!['#', '.', '.'], vec!['#', '#', '.'], vec!['#', '.', '.'], vec!['#', '#', '#']],
        'F' => vec![vec!['#', '#', '#'], vec!['#', '.', '.'], vec!['#', '#', '.'], vec!['#', '.', '.'], vec!['#', '.', '.']],
        'G' => vec![vec!['.', '#', '#'], vec!['#', '.', '.'], vec!['#', '.', '#'], vec!['#', '.', '#'], vec!['.', '#', '#']],
        'H' => vec![vec!['#', '.', '#'], vec!['#', '.', '#'], vec!['#', '#', '#'], vec!['#', '.', '#'], vec!['#', '.', '#']],
        'J' => vec![vec!['.', '.', '#'], vec!['.', '.', '#'], vec!['.', '.', '#'], vec!['#', '.', '#'], vec!['.', '#', '.']],
        'K' => vec![vec!['#', '.', '#'], vec!['#', '.', '#'], vec!['#', '#', '.'], vec!['#', '.', '#'], vec!['#', '.', '#']],
        'L' => vec![vec!['#', '.', '.'], vec!['#', '.', '.'], vec!['#', '.', '.'], vec!['#', '.', '.'], vec!['#', '#', '#']],
        'M' => vec![vec!['#', '.', '#'], vec!['#', '#', '#'], vec!['#', '#', '#'], vec!['#', '.', '#'], vec!['#', '.', '#']],
        'N' => vec![vec!['#', '.', '#'], vec!['#', '#', '#'], vec!['#', '#', '#'], vec!['#', '#', '#'], vec!['#', '.', '#']],
        'P' => vec![vec!['#', '#', '.'], vec!['#', '.', '#'], vec!['#', '#', '.'], vec!['#', '.', '.'], vec!['#', '.', '.']],
        'Q' => vec![vec!['.', '#', '.'], vec!['#', '.', '#'], vec!['#', '.', '#'], vec!['#', '#', '#'], vec!['.', '#', '#']],
        'R' => vec![vec!['#', '#', '.'], vec!['#', '.', '#'], vec!['#', '#', '.'], vec!['#', '.', '#'], vec!['#', '.', '#']],
        'S' => vec![vec!['.', '#', '#'], vec!['#', '.', '.'], vec!['.', '#', '.'], vec!['.', '.', '#'], vec!['#', '#', '.']],
        'T' => vec![vec!['#', '#', '#'], vec!['.', '#', '.'], vec!['.', '#', '.'], vec!['.', '#', '.'], vec!['.', '#', '.']],
        'U' => vec![vec!['#', '.', '#'], vec!['#', '.', '#'], vec!['#', '.', '#'], vec!['#', '.', '#'], vec!['.', '#', '.']],
        'V' => vec![vec!['#', '.', '#'], vec!['#', '.', '#'], vec!['#', '.', '#'], vec!['#', '.', '#'], vec!['.', '#', '.']],
        'W' => vec![vec!['#', '.', '#'], vec!['#', '.', '#'], vec!['#', '#', '#'], vec!['#', '#', '#'], vec!['#', '.', '#']],
        'X' => vec![vec!['#', '.', '#'], vec!['#', '.', '#'], vec!['.', '#', '.'], vec!['#', '.', '#'], vec!['#', '.', '#']],
        'Y' => vec![vec!['#', '.', '#'], vec!['#', '.', '#'], vec!['.', '#', '.'], vec!['.', '#', '.'], vec!['.', '#', '.']],
        'Z' => vec![vec!['#', '#', '#'], vec!['.', '.', '#'], vec!['.', '#', '.'], vec!['#', '.', '.'], vec!['#', '#', '#']],
        _ => {
            return None;
        },
    };
    assert(rows_view(rows@) =~= label_art(c)->0);
    Some(rows)
}

/// The marks of a session label on a sprite's chest: the first character
/// of `label`, centred on `cx` and in the middle of the body's `body_h`
/// rows from `body_y`, each `#` cell ringed in black and then painted white.
pub open spec fn label_marks(label: Option<Seq<char>>, cx: int, body_y: int, body_h: int) -> Seq<Mark> {
    match label {
        Some(l) => if l.len() > 0 {
            match label_art(l[0]) {
                Some(art) => {
                    let gx = cx - 1;
                    let gy = body_y + (body_h - 5) / 2;
                    art_stamps(art, gx, gy, Stamp::Ring(Rgb(0, 0, 0))) + art_stamps(art, gx, gy, Stamp::Dot(Rgb(0xff, 0xff, 0xff)))
                },
                None => Seq::empty(),
            }
        } else {
            Seq::empty()
        },
        None => Seq::empty(),
    }
}

/// Appends the marks of a session label (see `label_marks`).
pub(crate) fn push_session_label(v: &mut Vec<Mark>, label: Option<&str>, cx: i32, body_y: i32, body_h: i32)
    requires
        -1_100_000_000 <= cx <= 1_100_000_000,
        -1_100_000_000 <= body_y <= 1_100_000_000,
        5 <= body_h <= 1_000,
    ensures
        final(v)@ == old(v)@ + label_marks(
            match label {
                Some(l) => Some(l@),
                None => None,
            },
            cx as int,
            body_y as int,
            body_h as int,
        ),
        marks_ok(label_marks(
            match label {
                Some(l) => Some(l@),
                None => None,
            },
            cx as int,
            body_y as int,
            body_h as int,
        )),
{
    let ghost lv = match label {
        Some(l) => Some(l@),
        None => None::<Seq<char>>,
    };
    let l = match label {
        Some(l) => l,
        None => {
            assert(v@ =~= old(v)@ + label_marks(lv, cx as int, body_y as int, body_h as int));
            return;
        },
    };
    let cs = chars_of(l);
    if cs.len() == 0 {
        assert(v@ =~= old(v)@ + label_marks(lv, cx as int, body_y as int, body_h as int));
        return;
    }
    let art = match label_glyph(cs[0]) {
        Some(a) => a,
        None => {
            assert(v@ =~= old(v)@ + label_marks(lv, cx as int, body_y as int, body_h as int));
            return;
        },
    };
    let gx = cx - 1;
    let gy = body_y + (body_h - 5) / 2;
    proof {
        assert(rows_view(art@).len() == 5);
        assert forall|i: int| 0 <= i < rows_view(art@).len() implies (#[trigger] rows_view(art@)[i]).len() <= 10_000 by {
            assert(rows_view(art@)[i] == label_art(l@[0])->0[i]);
        }
    }
    stamp_art(v, &art, gx, gy, Stamp::Ring(Rgb(0, 0, 0)));
    stamp_art(v, &art, gx, gy, Stamp::Dot(Rgb(0xff, 0xff, 0xff)));
    proof {
        let a = rows_view(art@);
        lemma_art_stamps_ok(a, gx as int, gy as int, Stamp::Ring(Rgb(0, 0, 0)));
        lemma_art_stamps_ok(a, gx as int, gy as int, Stamp::Dot(Rgb(0xff, 0xff, 0xff)));
        crate::render::scene::lemma_marks_ok_concat(
            art_stamps(a, gx as int, gy as int, Stamp::Ring(Rgb(0, 0, 0))),
            art_stamps(a, gx as int, gy as int, Stamp::Dot(Rgb(0xff, 0xff, 0xff))),
        );
        assert(v@ =~= old(v)@ + label_marks(lv, cx as int, body_y as int, body_h as int));
    }
}

/// Draws a sprite's session label (see `label_marks`).
pub fn draw_session_label(fb: &mut RenderFrame, label: Option<&str>, cx: i32, body_y: i32, body_h: i32)
    requires
        old(fb).wf(),
        -1_100_000_000 <= cx <= 1_100_000_000,
        -1_100_000_000 <= body_y <= 1_100_000_000,
        5 <= body_h <= 1_000,
    ensures
        painted_over(
            *old(fb),
            *final(fb),
            label_marks(
                match label {
                    Some(l) => Some(l@),
                    None => None,
                },
                cx as int,
                body_y as int,
                body_h as int,
            ),
        ),
{
    let mut marks: Vec<Mark> = Vec::new();
    push_session_label(&mut marks, label, cx, body_y, body_h);
    assert(marks@ =~= label_marks(
        match label {
            Some(l) => Some(l@),
            None => None,
        },
        cx as int,
        body_y as int,
        body_h as int,
    ));
    paint(fb, &marks);
}

} // verus!
