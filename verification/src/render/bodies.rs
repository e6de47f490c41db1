//! The sprites' bodies: shadow, legs, torso, head, hair, badge and chest
//! label, painted back to front, and the order in which the sprites are
//! painted so that a body further south covers one further north.

use vstd::prelude::*;
use crate::render::geometry::{half, Rect};
use crate::render::palette::{hex_rgb, rgb_from_hex, sim_colors, sim_colors_of, Rgb, SimColors};
use crate::render::scene::{lemma_marks_ok_concat, marks_ok, paint, painted_over, Mark, Shape};
use crate::render::frame::RenderFrame;
use crate::render::sim_store::{SimAnim, SimState};
use crate::render::sprites::{label_marks, push_session_label};
use crate::state::agent::opt_str;
use crate::text::{lemma_lex_total, lemma_lex_trans, lex_le, str_le};

verus! {

/// Torso width, in frame pixels.
pub const BODY_W: i32 = 11;
/// Torso height.
pub const BODY_H: i32 = 13;
/// Head radius.
pub const HEAD_R: i32 = 4;
/// Hair strip height.
pub const HAIR_H: i32 = 4;
/// Hair strip width.
pub const HAIR_W: i32 = 9;
/// Leg width.
pub const LEG_W: i32 = 2;
/// Leg length at rest.
pub const LEG_H: i32 = 5;
/// Gap between the legs.
pub const LEG_GAP: i32 = 2;
/// Shadow width.
pub const SHADOW_W: i32 = 14;
/// Shadow height.
pub const SHADOW_H: i32 = 2;
/// How far below the anchor the shadow sits.
pub const SHADOW_DY: i32 = 11;
/// How far below the anchor the legs start.
pub const LEGS_DY: i32 = 7;
/// How far the torso sits below its centred position.
pub const BODY_DY: i32 = 2;

/// The shadow colour: the floor colour darkened 45% toward black.
pub const SHADOW: u32 = 0x06070a;
/// The chest badge of a sprite in the lab.
pub const LAB_BADGE: u32 = 0x7fffb5;
/// The chest badge of a sprite in plan mode.
pub const PLAN_BADGE: u32 = 0x7fc7ff;

/// Where a sprite stands this frame, in whole pixels: `x`, `y` its anchor in
/// world pixels, `bob` how far its seated bob moves it (frame pixels, up is
/// negative) and `swing` how far its walking legs swing.
#[derive(Clone, Copy, Debug, PartialEq, Eq, Structural)]
pub struct Pose {
    pub x: i32,
    pub y: i32,
    pub bob: i32,
    pub swing: i32,
}

/// A pose whose bob and swing are a few pixels, as a bob of at most one
/// pixel and a swing of half a leg are; the position may be anywhere.
pub open spec fn pose_fits(p: Pose) -> bool {
    &&& -1_000 <= p.bob <= 1_000
    &&& -1_000 <= p.swing <= 1_000
}

/// Whether every pose fits.
pub open spec fn poses_fit(poses: Seq<Pose>) -> bool {
    forall|i: int| 0 <= i < poses.len() ==> pose_fits(#[trigger] poses[i])
}

/// The leg lengths `(left, right)`: at rest both are `full`; while walking
/// one shortens by the swing and the other by its opposite, never below one
/// pixel.
pub open spec fn legs(state: SimState, full: int, swing: int) -> (int, int) {
    if state == SimState::WalkingIn || state == SimState::WalkingOut {
        let l = full - if swing > 0 { swing } else { 0 };
        let r = full - if swing < 0 { -swing } else { 0 };
        (if l > 1 { l } else { 1 }, if r > 1 { r } else { 1 })
    } else {
        (full, full)
    }
}

/// The leg lengths of a sprite (see `legs`).
pub fn leg_lengths(state: SimState, full: i32, swing: i32) -> (r: (i32, i32))
    requires
        -1_000_000 <= full <= 1_000_000,
        -1_000_000 <= swing <= 1_000_000,
    ensures
        (r.0 as int, r.1 as int) == legs(state, full as int, swing as int),
{
    match state {
        SimState::WalkingIn | SimState::WalkingOut => {
            let l = full - if swing > 0 { swing } else { 0 };
            let r = full - if swing < 0 { -swing } else { 0 };
            (if l > 1 { l } else { 1 }, if r > 1 { r } else { 1 })
        },
        _ => (full, full),
    }
}

/// The chest badge: green in the lab, else blue in plan mode, else none.
pub open spec fn badge_of(is_lab: bool, permission_mode: Seq<char>) -> Option<Rgb> {
    if is_lab {
        Some(hex_rgb(LAB_BADGE))
    } else if permission_mode == "plan"@ {
        Some(hex_rgb(PLAN_BADGE))
    } else {
        None
    }
}

/// The chest badge of a sprite (see `badge_of`).
pub fn badge_color<M>(sim: &SimAnim<M>) -> (r: Option<Rgb>)
    ensures
        r == badge_of(sim.is_lab, sim.permission_mode@),
{
    if sim.is_lab {
        return Some(rgb_from_hex(LAB_BADGE));
    }
    if crate::text::str_eq(sim.permission_mode.as_str(), "plan") {
        return Some(rgb_from_hex(PLAN_BADGE));
    }
    None
}

/// A filled rectangle mark.
pub open spec fn fill(x: int, y: int, w: int, h: int, c: Rgb) -> Mark {
    Mark { shape: Shape::Fill(Rect { x: x as i32, y: y as i32, w: w as i32, h: h as i32 }), color: c }
}

/// The centre of a sprite's body in frame pixels: half its anchor, lifted
/// by its bob while seated.
pub open spec fn body_centre<M>(s: SimAnim<M>, p: Pose) -> (int, int) {
    (half(p.x), half(p.y) + if s.state == SimState::Seated { p.bob as int } else { 0 })
}

/// The marks of one body, back to front: shadow, left and right leg, torso,
/// head, hair, then the badge and the chest label.
pub open spec fn body_marks<M>(s: SimAnim<M>, p: Pose) -> Seq<Mark> {
    let (cx, cy) = body_centre(s, p);
    let c = sim_colors_of(s.user@);
    let (ll, rl) = legs(s.state, LEG_H as int, p.swing as int);
    let body_y = cy - BODY_H / 2 + BODY_DY;
    let head_cy = body_y - HEAD_R - 1;
    let badge = match badge_of(s.is_lab, s.permission_mode@) {
        Some(b) => seq![fill(cx - BODY_W / 2 + 1, body_y + 1, 1, 1, b)],
        None => Seq::empty(),
    };
    seq![
        fill(cx - SHADOW_W / 2, cy + SHADOW_DY, SHADOW_W as int, SHADOW_H as int, hex_rgb(SHADOW)),
        fill(cx - LEG_W - LEG_GAP / 2 - LEG_W + 1, cy + LEGS_DY, LEG_W as int, ll, c.pants),
        fill(cx + LEG_GAP / 2, cy + LEGS_DY, LEG_W as int, rl, c.pants),
        fill(cx - BODY_W / 2, body_y, BODY_W as int, BODY_H as int, c.shirt),
        Mark { shape: Shape::Disc(cx as i32, head_cy as i32, HEAD_R), color: c.skin },
        fill(cx - HAIR_W / 2, head_cy - HEAD_R, HAIR_W as int, HAIR_H as int, c.hair),
    ] + badge + label_marks(
        opt_str(s.session_label),
        cx,
        body_y,
        BODY_H as int,
    )
}

/// Half of a world coordinate, rounding toward zero.
pub(crate) fn halve(v: i32) -> (r: i32)
    ensures
        r as int == half(v),
{
    if v >= 0 {
        v / 2
    } else if v == i32::MIN {
        -0x4000_0000
    } else {
        -((-v) / 2)
    }
}

/// Appends the marks of one body (see `body_marks`).
fn push_body<M>(v: &mut Vec<Mark>, s: &SimAnim<M>, p: Pose)
    requires
        pose_fits(p),
    ensures
        final(v)@ == old(v)@ + body_marks(*s, p),
        marks_ok(body_marks(*s, p)),
{
    let cx = halve(p.x);
    let bob = match s.state {
        SimState::Seated => p.bob,
        _ => 0,
    };
    let cy = halve(p.y) + bob;
    assert((cx as int, cy as int) == body_centre(*s, p));
    let c: SimColors = sim_colors(s.user.as_str());
    let (ll, rl) = leg_lengths(s.state, LEG_H, p.swing);
    let body_y = cy - BODY_H / 2 + BODY_DY;
    let head_cy = body_y - HEAD_R - 1;
    let ghost before = v@;
    v.push(Mark { shape: Shape::Fill(Rect::new(cx - SHADOW_W / 2, cy + SHADOW_DY, SHADOW_W, SHADOW_H)), color: rgb_from_hex(SHADOW) });
    v.push(Mark { shape: Shape::Fill(Rect::new(cx - LEG_W - LEG_GAP / 2 - LEG_W + 1, cy + LEGS_DY, LEG_W, ll)), color: c.pants });
    v.push(Mark { shape: Shape::Fill(Rect::new(cx + LEG_GAP / 2, cy + LEGS_DY, LEG_W, rl)), color: c.pants });
    v.push(Mark { shape: Shape::Fill(Rect::new(cx - BODY_W / 2, body_y, BODY_W, BODY_H)), color: c.shirt });
    v.push(Mark { shape: Shape::Disc(cx, head_cy, HEAD_R), color: c.skin });
    v.push(Mark { shape: Shape::Fill(Rect::new(cx - HAIR_W / 2, head_cy - HEAD_R, HAIR_W, HAIR_H)), color: c.hair });
    let ghost parts = v@.subrange(before.len() as int, v@.len() as int);
    let ghost after_parts = v@;
    match badge_color(s) {
        Some(b) => v.push(Mark { shape: Shape::Fill(Rect::new(cx - BODY_W / 2 + 1, body_y + 1, 1, 1)), color: b }),
        None => {},
    }
    let ghost after_badge = v@;
    let label: Option<&str> = match &s.session_label {
        Some(l) => Some(l.as_str()),
        None => None,
    };
    push_session_label(v, label, cx, body_y, BODY_H);
    proof {
        let lv = opt_str(s.session_label);
        assert(lv == match label {
            Some(l) => Some(l@),
            None => None::<Seq<char>>,
        });
        let badge = match badge_of(s.is_lab, s.permission_mode@) {
            Some(b) => seq![fill(cx - BODY_W / 2 + 1, body_y + 1, 1, 1, b)],
            None => Seq::<Mark>::empty(),
        };
        let fixed = seq![
            fill(cx - SHADOW_W / 2, cy + SHADOW_DY, SHADOW_W as int, SHADOW_H as int, hex_rgb(SHADOW)),
            fill(cx - LEG_W - LEG_GAP / 2 - LEG_W + 1, cy + LEGS_DY, LEG_W as int, ll as int, c.pants),
            fill(cx + LEG_GAP / 2, cy + LEGS_DY, LEG_W as int, rl as int, c.pants),
            fill(cx - BODY_W / 2, body_y as int, BODY_W as int, BODY_H as int, c.shirt),
            Mark { shape: Shape::Disc(cx, head_cy, HEAD_R), color: c.skin },
            fill(cx - HAIR_W / 2, head_cy - HEAD_R, HAIR_W as int, HAIR_H as int, c.hair),
        ];
        assert(after_parts =~= before + fixed);
        assert(after_badge =~= before + fixed + badge);
        assert(body_marks(*s, p) =~= fixed + badge + label_marks(lv, cx as int, body_y as int, BODY_H as int));
        assert(v@ =~= old(v)@ + body_marks(*s, p));
        assert(marks_ok(fixed));
        assert(marks_ok(badge));
        lemma_marks_ok_concat(fixed, badge);
        lemma_marks_ok_concat(fixed + badge, label_marks(lv, cx as int, body_y as int, BODY_H as int));
    }
}

/// Draws one sprite's body (see `body_marks`).
pub fn draw_sim<M>(fb: &mut RenderFrame, s: &SimAnim<M>, p: Pose)
    requires
        old(fb).wf(),
        pose_fits(p),
    ensures
        painted_over(*old(fb), *final(fb), body_marks(*s, p)),
{
    let mut marks: Vec<Mark> = Vec::new();
    push_body(&mut marks, s, p);
    assert(marks@ =~= body_marks(*s, p));
    paint(fb, &marks);
}

/// `a` comes strictly before `b` in code-point order.
pub open spec fn lex_lt(a: Seq<char>, b: Seq<char>) -> bool {
    lex_le(a, b) && !lex_le(b, a)
}

/// Neither of `a` and `b` comes before the other: the same id.
pub open spec fn lex_tie(a: Seq<char>, b: Seq<char>) -> bool {
    lex_le(a, b) && lex_le(b, a)
}

/// Sprite `i` is painted before sprite `j`: further north first, then by
/// agent id, then in list order.
pub open spec fn paints_before<M>(sims: Seq<SimAnim<M>>, poses: Seq<Pose>, i: int, j: int) -> bool {
    ||| poses[i].y < poses[j].y
    ||| poses[i].y == poses[j].y && lex_lt(sims[i].agent_id@, sims[j].agent_id@)
    ||| poses[i].y == poses[j].y && lex_tie(sims[i].agent_id@, sims[j].agent_id@) && i < j
}

/// `order` lists each sprite still in the scene exactly once, in painting
/// order.
pub open spec fn is_paint_order<M>(order: Seq<usize>, sims: Seq<SimAnim<M>>, poses: Seq<Pose>) -> bool {
    &&& forall|k: int| 0 <= k < order.len() ==> (#[trigger] order[k]) < sims.len() && sims[order[k] as int].state != SimState::Gone
    &&& forall|i: int| 0 <= i < sims.len() && sims[i].state != SimState::Gone ==> #[trigger] order.contains(i as usize)
    &&& forall|a: int, b: int| 0 <= a < b < order.len() ==> paints_before(sims, poses, #[trigger] order[a] as int, #[trigger] order[b] as int)
}

/// Painting order is transitive.
proof fn lemma_paints_before_trans<M>(sims: Seq<SimAnim<M>>, poses: Seq<Pose>, i: int, j: int, k: int)
    requires
        paints_before(sims, poses, i, j),
        paints_before(sims, poses, j, k),
    ensures
        paints_before(sims, poses, i, k),
{
    let (a, b, c) = (sims[i].agent_id@, sims[j].agent_id@, sims[k].agent_id@);
    if poses[i].y == poses[j].y && poses[j].y == poses[k].y {
        lemma_lex_trans(a, b, c);
        if lex_le(c, a) {
            lemma_lex_trans(b, c, a);
            lemma_lex_trans(c, a, b);
        }
    }
}

/// Whether sprite `i`'s key, (y, agent id), is no later than sprite `j`'s.
fn key_le<M>(sims: &Vec<SimAnim<M>>, poses: &Vec<Pose>, i: usize, j: usize) -> (r: bool)
    requires
        i < sims@.len(),
        j < sims@.len(),
        poses@.len() == sims@.len(),
    ensures
        r == (poses@[i as int].y < poses@[j as int].y || (poses@[i as int].y == poses@[j as int].y && lex_le(
            sims@[i as int].agent_id@,
            sims@[j as int].agent_id@,
        ))),
{
    poses[i].y < poses[j].y || (poses[i].y == poses[j].y && str_le(sims[i].agent_id.as_str(), sims[j].agent_id.as_str()))
}

/// The painting order of the sprites (see `is_paint_order`).
pub fn paint_order<M>(sims: &Vec<SimAnim<M>>, poses: &Vec<Pose>) -> (r: Vec<usize>)
    requires
        poses@.len() == sims@.len(),
    ensures
        is_paint_order(r@, sims@, poses@),
{
    let mut order: Vec<usize> = Vec::new();
    let mut i: usize = 0;
    while i < sims.len()
        invariant
            i <= sims@.len(),
            poses@.len() == sims@.len(),
            forall|k: int| 0 <= k < order@.len() ==> (#[trigger] order@[k]) < i && sims@[order@[k] as int].state != SimState::Gone,
            forall|t: int| 0 <= t < i && sims@[t].state != SimState::Gone ==> #[trigger] order@.contains(t as usize),
            forall|a: int, b: int| 0 <= a < b < order@.len() ==> paints_before(sims@, poses@, #[trigger] order@[a] as int, #[trigger] order@[b] as int),
        decreases sims@.len() - i,
    {
        if sims[i].is_alive() {
            let ghost o = order@;
            let mut p: usize = 0;
            while p < order.len() && key_le(sims, poses, order[p], i)
                invariant
                    order@ == o,
                    p <= o.len(),
                    i < sims@.len(),
                    poses@.len() == sims@.len(),
                    forall|k: int| 0 <= k < o.len() ==> (#[trigger] o[k]) < i,
                    forall|k: int| 0 <= k < p ==> paints_before(sims@, poses@, #[trigger] o[k] as int, i as int),
                decreases o.len() - p,
            {
                let e = order[p];
                assert(e < i);
                p = p + 1;
            }
            proof {
                if p < o.len() {
                    let e = o[p as int];
                    lemma_lex_total(sims@[e as int].agent_id@, sims@[i as int].agent_id@);
                    assert(paints_before(sims@, poses@, i as int, e as int));
                }
            }
            order.insert(p, i);
            proof {
                let t = order@;
                assert(t =~= o.insert(p as int, i));
                assert forall|a: int, b: int| 0 <= a < b < t.len() implies paints_before(sims@, poses@, #[trigger] t[a] as int, #[trigger] t[b] as int) by {
                    if b < p {
                    } else if b == p {
                        assert(t[a] == o[a]);
                    } else if a < p {
                        assert(t[b] == o[b - 1]);
                        assert(t[a] == o[a]);
                        if a < b - 1 {
                        }
                    } else if a == p {
                        assert(t[b] == o[b - 1]);
                        if p < b - 1 {
                            lemma_paints_before_trans(sims@, poses@, i as int, o[p as int] as int, o[b - 1] as int);
                        }
                    } else {
                        assert(t[a] == o[a - 1]);
                        assert(t[b] == o[b - 1]);
                    }
                }
                assert forall|k: int| 0 <= k < t.len() implies (#[trigger] t[k]) < i + 1 && sims@[t[k] as int].state != SimState::Gone by {
                    if k < p {
                        assert(t[k] == o[k]);
                    } else if k > p {
                        assert(t[k] == o[k - 1]);
                    }
                }
                assert forall|u: int| 0 <= u < i + 1 && sims@[u].state != SimState::Gone implies #[trigger] t.contains(u as usize) by {
                    if u < i {
                        assert(o.contains(u as usize));
                        let k = choose|k: int| 0 <= k < o.len() && o[k] == u as usize;
                        if k < p {
                            assert(t[k] == o[k]);
                        } else {
                            assert(t[k + 1] == o[k]);
                        }
                    } else {
                        assert(t[p as int] == i);
                    }
                }
            }
        } else {
            proof {
                assert forall|u: int| 0 <= u < i + 1 && sims@[u].state != SimState::Gone implies #[trigger] order@.contains(u as usize) by {
                    assert(u != i);
                }
            }
        }
        i = i + 1;
    }
    order
}

/// The marks of the bodies listed in `order`, in that order.
pub open spec fn bodies_marks<M>(sims: Seq<SimAnim<M>>, poses: Seq<Pose>, order: Seq<usize>) -> Seq<Mark>
    decreases order.len(),
{
    if order.len() == 0 {
        Seq::empty()
    } else {
        bodies_marks(sims, poses, order.drop_last()) + body_marks(sims[order.last() as int], poses[order.last() as int])
    }
}

/// Paints every sprite still in the scene, further north first, each at
/// `poses[i]`.
pub fn draw_sims<M>(fb: &mut RenderFrame, sims: &Vec<SimAnim<M>>, poses: &Vec<Pose>)
    requires
        old(fb).wf(),
        poses@.len() == sims@.len(),
        poses_fit(poses@),
    ensures
        exists|order: Seq<usize>|
            is_paint_order(order, sims@, poses@) && painted_over(*old(fb), *final(fb), bodies_marks(sims@, poses@, order)),
{
    let order = paint_order(sims, poses);
    let mut marks: Vec<Mark> = Vec::new();
    let mut k: usize = 0;
    while k < order.len()
        invariant
            is_paint_order(order@, sims@, poses@),
            poses@.len() == sims@.len(),
            poses_fit(poses@),
            k <= order@.len(),
            marks@ == bodies_marks(sims@, poses@, order@.take(k as int)),
            marks_ok(marks@),
        decreases order@.len() - k,
    {
        let j = order[k];
        assert(j < sims@.len());
        assert(pose_fits(poses@[j as int]));
        let ghost before = marks@;
        push_body(&mut marks, &sims[j], poses[j]);
        proof {
            assert(order@.take(k + 1).drop_last() =~= order@.take(k as int));
            assert(order@.take(k + 1).last() == j);
            lemma_marks_ok_concat(before, body_marks(sims@[j as int], poses@[j as int]));
        }
        k = k + 1;
    }
    assert(order@.take(k as int) =~= order@);
    paint(fb, &marks);
}

} // verus!
