//! Dirty rectangles of the framebuffer backend: only the regions whose
//! contents changed between two frames are blitted again. Coordinates are
//! render-frame pixels (half the world).

use vstd::prelude::*;
use crate::render::geometry::{Point, Rect, half};
use crate::render::fx::{Tether, Halo};
use crate::render::{RENDER_W, RENDER_H};
use crate::text::str_eq;

verus! {

/// Right edge of a rectangle.
pub open spec fn right(r: Rect) -> int {
    r.x + r.w
}

/// Bottom edge of a rectangle.
pub open spec fn bottom(r: Rect) -> int {
    r.y + r.h
}

/// A rectangle of positive area.
pub open spec fn positive(r: Rect) -> bool {
    r.w > 0 && r.h > 0
}

/// `inner` lies inside `outer`, edges included.
pub open spec fn within(inner: Rect, outer: Rect) -> bool {
    outer.x <= inner.x && right(inner) <= right(outer) && outer.y <= inner.y && bottom(inner)
        <= bottom(outer)
}

/// Two rectangles overlap or share an edge (their bounds grown by one pixel meet).
pub open spec fn touches(a: Rect, b: Rect) -> bool {
    !(right(a) < b.x || right(b) < a.x || bottom(a) < b.y || bottom(b) < a.y)
}

/// The smallest rectangle that holds both.
pub open spec fn hull(a: Rect, b: Rect) -> Rect {
    let x0 = if a.x <= b.x { a.x } else { b.x };
    let y0 = if a.y <= b.y { a.y } else { b.y };
    let x1 = if right(a) >= right(b) { right(a) } else { right(b) };
    let y1 = if bottom(a) >= bottom(b) { bottom(a) } else { bottom(b) };
    Rect { x: x0, y: y0, w: (x1 - x0) as i32, h: (y1 - y0) as i32 }
}

/// Coordinates small enough that hulls of such rectangles never overflow.
pub open spec fn modest(r: Rect) -> bool {
    &&& -0x4000_0000 <= r.x <= 0x3fff_ffff
    &&& -0x4000_0000 <= right(r) <= 0x3fff_ffff
    &&& -0x4000_0000 <= r.y <= 0x3fff_ffff
    &&& -0x4000_0000 <= bottom(r) <= 0x3fff_ffff
}

/// Every rectangle of positive area in `src` has modest coordinates.
pub open spec fn all_modest(src: Seq<Rect>) -> bool {
    forall|i: int| 0 <= i < src.len() && positive(#[trigger] src[i]) ==> modest(src[i])
}

/// Each rectangle of `src` with positive area lies inside one of `out`.
pub open spec fn covers(out: Seq<Rect>, src: Seq<Rect>) -> bool {
    forall|i: int|
        0 <= i < src.len() && positive(#[trigger] src[i]) ==> exists|k: int|
            0 <= k < out.len() && within(src[i], #[trigger] out[k])
}

/// Each of the four edges of `r` is the edge of a positive rectangle of `src`
/// that lies inside `r`: `r` is the bounding box of the rectangles of `src`
/// that it holds.
#[verifier::opaque]
pub open spec fn spanned(r: Rect, src: Seq<Rect>) -> bool {
    &&& exists|i: int|
        0 <= i < src.len() && positive(#[trigger] src[i]) && within(src[i], r) && src[i].x == r.x
    &&& exists|i: int|
        0 <= i < src.len() && positive(#[trigger] src[i]) && within(src[i], r) && right(src[i])
            == right(r)
    &&& exists|i: int|
        0 <= i < src.len() && positive(#[trigger] src[i]) && within(src[i], r) && src[i].y == r.y
    &&& exists|i: int|
        0 <= i < src.len() && positive(#[trigger] src[i]) && within(src[i], r) && bottom(src[i])
            == bottom(r)
}

/// No two rectangles of `out` touch.
pub open spec fn apart(out: Seq<Rect>) -> bool {
    forall|k: int, l: int| 0 <= k < l < out.len() ==> !touches(#[trigger] out[k], #[trigger] out[l])
}

/// How a merged rectangle was grown: a positive rectangle of the source by
/// its index, or the hull of two grown rectangles that touch.
pub enum MergeTree {
    Leaf(usize),
    Node(Box<MergeTree>, Box<MergeTree>),
}

/// The rectangle a merge tree stands for.
pub open spec fn tree_rect(src: Seq<Rect>, t: MergeTree) -> Rect
    decreases t,
{
    match t {
        MergeTree::Leaf(i) => src[i as int],
        MergeTree::Node(l, r) => hull(tree_rect(src, *l), tree_rect(src, *r)),
    }
}

/// Every leaf is a positive rectangle of `src`, and the two halves of every
/// node touch.
pub open spec fn tree_ok(src: Seq<Rect>, t: MergeTree) -> bool
    decreases t,
{
    match t {
        MergeTree::Leaf(i) => i < src.len() && positive(src[i as int]),
        MergeTree::Node(l, r) => tree_ok(src, *l) && tree_ok(src, *r) && touches(
            tree_rect(src, *l),
            tree_rect(src, *r),
        ),
    }
}

/// `r` is grown from `src` by merging only rectangles that touch.
pub open spec fn grown(r: Rect, src: Seq<Rect>) -> bool {
    exists|t: MergeTree| tree_ok(src, t) && tree_rect(src, t) == r
}

/// A merge tree whose rectangles end inside the `i32` range and whose every
/// node joins two rectangles whose bounding box fits an `i32` (see
/// `pair_ok`): building its hull never overflows.
pub open spec fn tree_fits(src: Seq<Rect>, t: MergeTree) -> bool
    decreases t,
{
    match t {
        MergeTree::Leaf(i) => right(src[i as int]) <= i32::MAX && bottom(src[i as int]) <= i32::MAX,
        MergeTree::Node(l, r) => tree_fits(src, *l) && tree_fits(src, *r) && pair_ok(
            tree_rect(src, *l),
            tree_rect(src, *r),
        ),
    }
}

/// Every hull that merging touching rectangles of `src` can build fits an
/// `i32`: rectangles that never come to touch are not constrained.
pub open spec fn fits(src: Seq<Rect>) -> bool {
    forall|t: MergeTree| #[trigger] tree_ok(src, t) ==> tree_fits(src, t)
}

/// `out` is a merge of `src`: rectangles of positive area, pairwise apart,
/// covering every positive rectangle of `src`, each the bounding box of the
/// rectangles of `src` it holds and grown from them by merging only
/// rectangles that touch; no more of them than `src` has positive ones.
pub open spec fn merged(out: Seq<Rect>, src: Seq<Rect>) -> bool {
    &&& forall|k: int| 0 <= k < out.len() ==> positive(#[trigger] out[k])
    &&& forall|k: int| 0 <= k < out.len() ==> spanned(#[trigger] out[k], src)
    &&& forall|k: int| 0 <= k < out.len() ==> grown(#[trigger] out[k], src)
    &&& covers(out, src)
    &&& apart(out)
    &&& out.len() <= positives(src).len()
}

/// Two positive rectangles whose edges and hull stay in the `i32` range.
pub open spec fn pair_ok(a: Rect, b: Rect) -> bool {
    &&& positive(a) && positive(b)
    &&& right(a) <= i32::MAX && bottom(a) <= i32::MAX && right(b) <= i32::MAX && bottom(b) <= i32::MAX
    &&& right(a) - b.x <= i32::MAX && right(b) - a.x <= i32::MAX
    &&& bottom(a) - b.y <= i32::MAX && bottom(b) - a.y <= i32::MAX
}

/// A merge tree of modest rectangles grows a modest rectangle and fits.
proof fn lemma_tree_modest(src: Seq<Rect>, t: MergeTree)
    requires
        all_modest(src),
        tree_ok(src, t),
    ensures
        modest(tree_rect(src, t)),
        positive(tree_rect(src, t)),
        tree_fits(src, t),
    decreases t,
{
    match t {
        MergeTree::Leaf(i) => {},
        MergeTree::Node(l, r) => {
            lemma_tree_modest(src, *l);
            lemma_tree_modest(src, *r);
        },
    }
}

/// Modest rectangles fit.
proof fn lemma_modest_fits(src: Seq<Rect>)
    requires
        all_modest(src),
    ensures
        fits(src),
{
    assert forall|t: MergeTree| #[trigger] tree_ok(src, t) implies tree_fits(src, t) by {
        lemma_tree_modest(src, t);
    }
}

/// A fitting merge tree grows a positive rectangle whose edges end inside
/// the `i32` range.
proof fn lemma_tree_edges(src: Seq<Rect>, t: MergeTree)
    requires
        tree_ok(src, t),
        tree_fits(src, t),
    ensures
        positive(tree_rect(src, t)),
        right(tree_rect(src, t)) <= i32::MAX,
        bottom(tree_rect(src, t)) <= i32::MAX,
    decreases t,
{
    match t {
        MergeTree::Leaf(i) => {},
        MergeTree::Node(l, r) => {
            lemma_tree_edges(src, *l);
            lemma_tree_edges(src, *r);
        },
    }
}

/// A positive rectangle whose edges end inside the `i32` range.
pub open spec fn edges_ok(a: Rect) -> bool {
    positive(a) && right(a) <= i32::MAX && bottom(a) <= i32::MAX
}

/// Whether two rectangles touch.
fn touching(a: Rect, b: Rect) -> (t: bool)
    requires
        edges_ok(a),
        edges_ok(b),
    ensures
        t == touches(a, b),
{
    !(a.x + a.w < b.x || b.x + b.w < a.x || a.y + a.h < b.y || b.y + b.h < a.y)
}

/// The bounding box of two rectangles.
fn union(a: Rect, b: Rect) -> (u: Rect)
    requires
        pair_ok(a, b),
    ensures
        u == hull(a, b),
        within(a, u),
        within(b, u),
{
    let x0 = if a.x <= b.x { a.x } else { b.x };
    let y0 = if a.y <= b.y { a.y } else { b.y };
    let x1 = if a.x + a.w >= b.x + b.w { a.x + a.w } else { b.x + b.w };
    let y1 = if a.y + a.h >= b.y + b.h { a.y + a.h } else { b.y + b.h };
    Rect::new(x0, y0, x1 - x0, y1 - y0)
}

/// The hull of two spanned rectangles is spanned.
proof fn lemma_hull_spanned(a: Rect, b: Rect, src: Seq<Rect>)
    requires
        spanned(a, src),
        spanned(b, src),
        pair_ok(a, b),
    ensures
        spanned(hull(a, b), src),
        positive(hull(a, b)),
        within(a, hull(a, b)),
        within(b, hull(a, b)),
{
    reveal(spanned);
    let u = hull(a, b);
    assert(within(a, u) && within(b, u));
    let ax = choose|i: int|
        0 <= i < src.len() && positive(#[trigger] src[i]) && within(src[i], a) && src[i].x == a.x;
    let bx = choose|i: int|
        0 <= i < src.len() && positive(#[trigger] src[i]) && within(src[i], b) && src[i].x == b.x;
    let ar = choose|i: int|
        0 <= i < src.len() && positive(#[trigger] src[i]) && within(src[i], a) && right(src[i])
            == right(a);
    let br = choose|i: int|
        0 <= i < src.len() && positive(#[trigger] src[i]) && within(src[i], b) && right(src[i])
            == right(b);
    let ay = choose|i: int|
        0 <= i < src.len() && positive(#[trigger] src[i]) && within(src[i], a) && src[i].y == a.y;
    let by = choose|i: int|
        0 <= i < src.len() && positive(#[trigger] src[i]) && within(src[i], b) && src[i].y == b.y;
    let ab = choose|i: int|
        0 <= i < src.len() && positive(#[trigger] src[i]) && within(src[i], a) && bottom(src[i])
            == bottom(a);
    let bb = choose|i: int|
        0 <= i < src.len() && positive(#[trigger] src[i]) && within(src[i], b) && bottom(src[i])
            == bottom(b);
    if a.x <= b.x {
        assert(within(src[ax], u) && src[ax].x == u.x);
    } else {
        assert(within(src[bx], u) && src[bx].x == u.x);
    }
    if right(a) >= right(b) {
        assert(within(src[ar], u) && right(src[ar]) == right(u));
    } else {
        assert(within(src[br], u) && right(src[br]) == right(u));
    }
    if a.y <= b.y {
        assert(within(src[ay], u) && src[ay].y == u.y);
    } else {
        assert(within(src[by], u) && src[by].y == u.y);
    }
    if bottom(a) >= bottom(b) {
        assert(within(src[ab], u) && bottom(src[ab]) == bottom(u));
    } else {
        assert(within(src[bb], u) && bottom(src[bb]) == bottom(u));
    }
}

/// The working set of a merge: positive, spanned, grown rectangles that
/// cover `src`.
#[verifier::opaque]
spec fn sound(rects: Seq<Rect>, src: Seq<Rect>) -> bool {
    &&& forall|k: int| 0 <= k < rects.len() ==> positive(#[trigger] rects[k])
    &&& forall|k: int| 0 <= k < rects.len() ==> spanned(#[trigger] rects[k], src)
    &&& forall|k: int| 0 <= k < rects.len() ==> grown(#[trigger] rects[k], src)
    &&& covers(rects, src)
    &&& fits(src)
}

/// Every member of a sound working set has its edges inside the `i32` range.
proof fn lemma_sound_edges(rects: Seq<Rect>, src: Seq<Rect>, i: int)
    requires
        sound(rects, src),
        0 <= i < rects.len(),
    ensures
        edges_ok(rects[i]),
{
    reveal(sound);
    assert(grown(rects[i], src));
    let t = choose|t: MergeTree| tree_ok(src, t) && tree_rect(src, t) == rects[i];
    lemma_tree_edges(src, t);
}

/// Two touching members of a sound working set make a good pair.
proof fn lemma_sound_pair(rects: Seq<Rect>, src: Seq<Rect>, i: int, j: int)
    requires
        sound(rects, src),
        0 <= i < rects.len(),
        0 <= j < rects.len(),
        touches(rects[i], rects[j]),
    ensures
        pair_ok(rects[i], rects[j]),
{
    reveal(sound);
    assert(grown(rects[i], src));
    assert(grown(rects[j], src));
    let ta = choose|t: MergeTree| tree_ok(src, t) && tree_rect(src, t) == rects[i];
    let tb = choose|t: MergeTree| tree_ok(src, t) && tree_rect(src, t) == rects[j];
    let tu = MergeTree::Node(Box::new(ta), Box::new(tb));
    assert(tree_ok(src, tu));
    assert(tree_fits(src, tu));
}

/// Replacing entry `i` by the hull of the touching entries `i` and `j`, then
/// moving the last entry into place `j`, keeps the working set sound.
proof fn lemma_merge_step(old_rects: Seq<Rect>, src: Seq<Rect>, i: int, j: int, new_rects: Seq<Rect>)
    requires
        sound(old_rects, src),
        0 <= i < j < old_rects.len(),
        touches(old_rects[i], old_rects[j]),
        new_rects == old_rects.update(i, hull(old_rects[i], old_rects[j])).update(
            j,
            old_rects.update(i, hull(old_rects[i], old_rects[j])).last(),
        ).drop_last(),
    ensures
        sound(new_rects, src),
        new_rects.len() == old_rects.len() - 1,
{
    let n = old_rects.len();
    let a = old_rects[i];
    let b = old_rects[j];
    let u = hull(a, b);
    lemma_sound_pair(old_rects, src, i, j);
    reveal(sound);
    lemma_hull_spanned(a, b, src);
    let ta = choose|t: MergeTree| tree_ok(src, t) && tree_rect(src, t) == a;
    let tb = choose|t: MergeTree| tree_ok(src, t) && tree_rect(src, t) == b;
    let tu = MergeTree::Node(Box::new(ta), Box::new(tb));
    assert(tree_ok(src, tu) && tree_rect(src, tu) == u);
    assert forall|k: int| 0 <= k < new_rects.len() implies #[trigger] new_rects[k] == if k == i {
        u
    } else if k == j {
        old_rects[n - 1]
    } else {
        old_rects[k]
    } by {}
    assert forall|k: int| 0 <= k < new_rects.len() implies positive(#[trigger] new_rects[k]) by {
        if k != i && k != j {
            assert(positive(old_rects[k]));
        } else if k == j {
            assert(positive(old_rects[n - 1]));
        }
    }
    assert forall|k: int| 0 <= k < new_rects.len() implies spanned(#[trigger] new_rects[k], src) by {
        if k != i && k != j {
            assert(spanned(old_rects[k], src));
        } else if k == j {
            assert(spanned(old_rects[n - 1], src));
        }
    }
    assert forall|k: int| 0 <= k < new_rects.len() implies grown(#[trigger] new_rects[k], src) by {
        if k == i {
        } else if k == j {
            assert(grown(old_rects[n - 1], src));
        } else {
            assert(grown(old_rects[k], src));
        }
    }
    assert forall|m: int| 0 <= m < src.len() && positive(#[trigger] src[m]) implies exists|k: int|
        0 <= k < new_rects.len() && within(src[m], #[trigger] new_rects[k]) by {
        let k0 = choose|k: int| 0 <= k < old_rects.len() && within(src[m], #[trigger] old_rects[k]);
        if k0 == i || k0 == j {
            assert(within(src[m], new_rects[i]));
        } else if k0 == n - 1 {
            assert(within(src[m], new_rects[j]));
        } else {
            assert(within(src[m], new_rects[k0]));
        }
    }
}

/// The rectangles of positive area, in their order.
fn keep_positive(rects: &Vec<Rect>) -> (out: Vec<Rect>)
    requires
        fits(rects@),
    ensures
        sound(out@, rects@),
        out@ == positives(rects@),
        out@.len() == positives(rects@).len(),
        (forall|k: int| 0 <= k < rects@.len() ==> positive(#[trigger] rects@[k])) ==> out@ == rects@,
{
    let mut out: Vec<Rect> = Vec::new();
    let ghost mut from: Seq<int> = Seq::empty();
    let mut i: usize = 0;
    while i < rects.len()
        invariant
            i <= rects@.len(),
            from.len() == out@.len(),
            out@ == positives(rects@.take(i as int)),
            forall|k: int| 0 <= k < out@.len() ==> 0 <= #[trigger] from[k] < rects@.len(),
            forall|k: int| 0 <= k < out@.len() ==> rects@[from[k]] == #[trigger] out@[k],
            forall|k: int| 0 <= k < out@.len() ==> positive(#[trigger] out@[k]),
            forall|m: int|
                0 <= m < i && positive(#[trigger] rects@[m]) ==> exists|k: int|
                    0 <= k < out@.len() && #[trigger] from[k] == m,
            (forall|k: int| 0 <= k < rects@.len() ==> positive(#[trigger] rects@[k])) ==> out@ == rects@.take(i as int),
        decreases rects@.len() - i,
    {
        let r = rects[i];
        proof {
            assert(rects@.take(i + 1).drop_last() =~= rects@.take(i as int));
            assert(rects@.take(i + 1).last() == rects@[i as int]);
        }
        if r.w > 0 && r.h > 0 {
            out.push(r);
            proof {
                let old_from = from;
                from = from.push(i as int);
                assert(from[from.len() - 1] == i);
                assert forall|m: int|
                    0 <= m < i && positive(#[trigger] rects@[m]) implies exists|k: int|
                        0 <= k < out@.len() && #[trigger] from[k] == m by {
                    let k0 = choose|k: int| 0 <= k < old_from.len() && #[trigger] old_from[k] == m;
                    assert(from[k0] == m);
                }
            }
        }
        proof {
            if forall|k: int| 0 <= k < rects@.len() ==> positive(#[trigger] rects@[k]) {
                assert(positive(rects@[i as int]));
                assert(out@ =~= rects@.take(i + 1));
            }
        }
        i = i + 1;
    }
    proof {
        reveal(sound);
        assert(rects@.take(rects@.len() as int) =~= rects@);
        assert forall|k: int| 0 <= k < out@.len() implies spanned(#[trigger] out@[k], rects@) by {
            reveal(spanned);
            let m = from[k];
            assert(rects@[m] == out@[k]);
            assert(positive(out@[k]));
            assert(0 <= m < rects@.len() && positive(rects@[m]) && within(rects@[m], out@[k]));
        }
        assert forall|k: int| 0 <= k < out@.len() implies grown(#[trigger] out@[k], rects@) by {
            let m = from[k];
            assert(0 <= m < rects@.len() && rects@.len() <= usize::MAX);
            let t = MergeTree::Leaf(m as usize);
            assert((m as usize) as int == m);
            assert(rects@[m] == out@[k]);
            assert(positive(out@[k]));
            assert(tree_ok(rects@, t));
            assert(tree_rect(rects@, t) == out@[k]);
        }
        assert forall|m: int| 0 <= m < rects@.len() && positive(#[trigger] rects@[m]) implies exists|
            k: int,
        | 0 <= k < out@.len() && within(rects@[m], #[trigger] out@[k]) by {
            let k = choose|k: int| 0 <= k < out@.len() && #[trigger] from[k] == m;
            assert(within(rects@[m], out@[k]));
        }
    }
    out
}

/// Touching is kept when both sides grow.
proof fn lemma_touch_grows(a: Rect, b: Rect, p: Rect, q: Rect)
    requires
        within(a, p),
        within(b, q),
        touches(a, b),
    ensures
        touches(p, q),
{
}

/// The hull of two positive rectangles inside `p` lies inside `p`.
proof fn lemma_hull_within(a: Rect, b: Rect, p: Rect)
    requires
        positive(a),
        positive(b),
        within(a, p),
        within(b, p),
    ensures
        within(hull(a, b), p),
        positive(hull(a, b)),
{
}

/// A positive rectangle inside another touches it.
proof fn lemma_within_touches(a: Rect, b: Rect)
    requires
        positive(a),
        within(a, b),
    ensures
        touches(a, b),
        touches(b, a),
{
}

/// What a merge tree grows lies inside one rectangle of any merge of the
/// same source, and has positive area.
proof fn lemma_tree_within(src: Seq<Rect>, t: MergeTree, out: Seq<Rect>)
    requires
        tree_ok(src, t),
        merged(out, src),
    ensures
        positive(tree_rect(src, t)),
        exists|q: int| 0 <= q < out.len() && within(tree_rect(src, t), #[trigger] out[q]),
    decreases t,
{
    match t {
        MergeTree::Leaf(i) => {
            assert(positive(src[i as int]));
        },
        MergeTree::Node(l, r) => {
            lemma_tree_within(src, *l, out);
            lemma_tree_within(src, *r, out);
            let a = tree_rect(src, *l);
            let b = tree_rect(src, *r);
            let p = choose|q: int| 0 <= q < out.len() && within(a, #[trigger] out[q]);
            let q = choose|q: int| 0 <= q < out.len() && within(b, #[trigger] out[q]);
            lemma_touch_grows(a, b, out[p], out[q]);
            if p < q {
                assert(!touches(out[p], out[q]));
            } else if q < p {
                assert(!touches(out[q], out[p]));
            }
            assert(p == q);
            lemma_hull_within(a, b, out[p]);
        },
    }
}

/// Each rectangle of one merge is a rectangle of any other merge of the same
/// source.
proof fn lemma_merge_member(o1: Seq<Rect>, o2: Seq<Rect>, src: Seq<Rect>, k: int)
    requires
        merged(o1, src),
        merged(o2, src),
        0 <= k < o1.len(),
    ensures
        o2.contains(o1[k]),
{
    assert(grown(o1[k], src));
    let t1 = choose|t: MergeTree| tree_ok(src, t) && tree_rect(src, t) == o1[k];
    lemma_tree_within(src, t1, o2);
    let q = choose|q: int| 0 <= q < o2.len() && within(o1[k], #[trigger] o2[q]);
    assert(grown(o2[q], src));
    let t2 = choose|t: MergeTree| tree_ok(src, t) && tree_rect(src, t) == o2[q];
    lemma_tree_within(src, t2, o1);
    let k2 = choose|l: int| 0 <= l < o1.len() && within(o2[q], #[trigger] o1[l]);
    assert(positive(o1[k]));
    assert(within(o1[k], o1[k2]));
    lemma_within_touches(o1[k], o1[k2]);
    if k < k2 {
        assert(!touches(o1[k], o1[k2]));
    } else if k2 < k {
        assert(!touches(o1[k2], o1[k]));
    }
    assert(k == k2);
    assert(o1[k] == o2[q]);
}

/// A merge is determined by its source: any two merges of the same
/// rectangles hold the same rectangles. So the dirty set of a frame is what
/// `merge_rects` gives on this frame's and the last frame's boxes, in
/// whatever order it lists them.
pub proof fn law_merge_unique(o1: Seq<Rect>, o2: Seq<Rect>, src: Seq<Rect>)
    requires
        merged(o1, src),
        merged(o2, src),
    ensures
        o1.to_set() == o2.to_set(),
{
    assert forall|r: Rect| o1.to_set().contains(r) <==> o2.to_set().contains(r) by {
        if o1.contains(r) {
            let k = choose|k: int| 0 <= k < o1.len() && o1[k] == r;
            lemma_merge_member(o1, o2, src, k);
        }
        if o2.contains(r) {
            let k = choose|k: int| 0 <= k < o2.len() && o2[k] == r;
            lemma_merge_member(o2, o1, src, k);
        }
    }
    assert(o1.to_set() =~= o2.to_set());
}

/// `rs` with entry `i` replaced by the hull of entries `i` and `j`, and
/// entry `j` replaced by the last entry, which is then dropped.
pub open spec fn fold_into(rs: Seq<Rect>, i: int, j: int) -> Seq<Rect> {
    let u = rs.update(i, hull(rs[i], rs[j]));
    u.update(j, u.last()).drop_last()
}

/// Sweeps entry `i` against the entries from `j` on: each one that touches
/// it is folded into it (see `fold_into`) and the sweep goes on at the same
/// place; returns the entries and whether anything was folded.
pub open spec fn sweep_from(rs: Seq<Rect>, i: int, j: int) -> (Seq<Rect>, bool)
    decreases rs.len() - j,
{
    if i < 0 || i >= rs.len() || j < 0 || j >= rs.len() {
        (rs, false)
    } else if touches(rs[i], rs[j]) {
        (sweep_from(fold_into(rs, i, j), i, j).0, true)
    } else {
        sweep_from(rs, i, j + 1)
    }
}

/// One pass: sweeps every entry from `i` on against the entries after it;
/// returns the entries and whether anything was folded.
pub open spec fn pass_from(rs: Seq<Rect>, i: int) -> (Seq<Rect>, bool)
    decreases rs.len() - i,
{
    if i < 0 || i >= rs.len() {
        (rs, false)
    } else {
        let (a, ca) = sweep_from(rs, i, i + 1);
        proof {
            lemma_sweep_len(rs, i, i + 1);
        }
        let (b, cb) = if i + 1 < a.len() {
            pass_from(a, i + 1)
        } else {
            (a, false)
        };
        (b, ca || cb)
    }
}

/// Passes over `rs` until one folds nothing.
pub open spec fn passes(rs: Seq<Rect>) -> Seq<Rect>
    decreases rs.len(),
{
    let (r, changed) = pass_from(rs, 0);
    proof {
        lemma_pass_len(rs, 0);
    }
    if changed {
        passes(r)
    } else {
        r
    }
}

/// What `merge_rects` returns on `src`, in its order: the positive
/// rectangles in their order, then passes that fold each entry's touching
/// successors into it, until a pass folds nothing.
pub open spec fn merge_result(src: Seq<Rect>) -> Seq<Rect> {
    passes(positives(src))
}

/// A sweep never lengthens the entries, and shortens them when it folds.
pub proof fn lemma_sweep_len(rs: Seq<Rect>, i: int, j: int)
    ensures
        sweep_from(rs, i, j).0.len() <= rs.len(),
        sweep_from(rs, i, j).1 ==> sweep_from(rs, i, j).0.len() < rs.len(),
    decreases rs.len() - j,
{
    if 0 <= i < rs.len() && 0 <= j < rs.len() {
        if touches(rs[i], rs[j]) {
            assert(fold_into(rs, i, j).len() == rs.len() - 1);
            lemma_sweep_len(fold_into(rs, i, j), i, j);
        } else {
            lemma_sweep_len(rs, i, j + 1);
        }
    }
}

/// A pass never lengthens the entries, and shortens them when it folds.
pub proof fn lemma_pass_len(rs: Seq<Rect>, i: int)
    ensures
        pass_from(rs, i).0.len() <= rs.len(),
        pass_from(rs, i).1 ==> pass_from(rs, i).0.len() < rs.len(),
    decreases rs.len() - i,
{
    if 0 <= i < rs.len() {
        lemma_sweep_len(rs, i, i + 1);
        let a = sweep_from(rs, i, i + 1).0;
        if i + 1 < a.len() {
            lemma_pass_len(a, i + 1);
        }
    }
}

/// Merges touching or overlapping rectangles until no two touch; rectangles
/// of zero area are dropped.
pub fn merge_rects(rects: Vec<Rect>) -> (out: Vec<Rect>)
    requires
        fits(rects@),
    ensures
        out@ == merge_result(rects@),
        merged(out@, rects@),
        (forall|k: int| 0 <= k < rects@.len() ==> positive(#[trigger] rects@[k])) && apart(rects@) ==> out@ == rects@,
{
    let ghost src = rects@;
    let ghost settled = (forall|k: int| 0 <= k < src.len() ==> positive(#[trigger] src[k])) && apart(src);
    let mut rects = keep_positive(&rects);
    let ghost target = merge_result(src);
    let mut changed = true;
    let ghost mut first = true;
    while changed
        invariant
            sound(rects@, src),
            rects@.len() <= positives(src).len(),
            target == merge_result(src),
            changed ==> passes(rects@) == target,
            !changed ==> rects@ == target,
            !changed ==> apart(rects@),
            settled ==> rects@ == src,
            settled && !first ==> !changed,
            settled == ((forall|k: int| 0 <= k < src.len() ==> positive(#[trigger] src[k])) && apart(src)),
        decreases rects@.len() + if changed { 1int } else { 0int },
    {
        changed = false;
        proof {
            first = false;
        }
        let ghost pass_len = rects@.len();
        let ghost start = rects@;
        let mut i: usize = 0;
        while i < rects.len()
            invariant
                passes(start) == target,
                pass_from(start, 0) == (pass_from(rects@, i as int).0, changed || pass_from(rects@, i as int).1),
                sound(rects@, src),
                i <= rects@.len(),
                rects@.len() <= pass_len,
                pass_len <= positives(src).len(),
                changed ==> rects@.len() < pass_len,
                !changed ==> rects@.len() == pass_len,
                !changed ==> forall|k: int, l: int|
                    0 <= k < i && k < l < rects@.len() ==> !touches(
                        #[trigger] rects@[k],
                        #[trigger] rects@[l],
                    ),
                settled ==> rects@ == src && !changed,
                settled ==> apart(src),
            decreases rects@.len() - i,
        {
            let ghost len_at_i = rects@.len();
            let mut j: usize = i + 1;
            while j < rects.len()
                invariant
                    passes(start) == target,
                    pass_from(start, 0) == ({
                        let sw = sweep_from(rects@, i as int, j as int);
                        let rest = if i + 1 < sw.0.len() {
                            pass_from(sw.0, i + 1)
                        } else {
                            (sw.0, false)
                        };
                        (rest.0, changed || sw.1 || rest.1)
                    }),
                    sound(rects@, src),
                    i < j <= rects@.len(),
                    rects@.len() <= len_at_i,
                    len_at_i <= pass_len,
                    pass_len <= positives(src).len(),
                    changed ==> rects@.len() < pass_len,
                    !changed ==> rects@.len() == pass_len,
                    !changed ==> forall|k: int, l: int|
                        0 <= k < i && k < l < rects@.len() ==> !touches(
                            #[trigger] rects@[k],
                            #[trigger] rects@[l],
                        ),
                    !changed ==> forall|l: int|
                        i < l < j ==> !touches(rects@[i as int], #[trigger] rects@[l]),
                    settled ==> rects@ == src && !changed,
                    settled ==> apart(src),
                decreases rects@.len() - j,
            {
                let a = rects[i];
                let b = rects[j];
                proof {
                    lemma_sound_edges(rects@, src, i as int);
                    lemma_sound_edges(rects@, src, j as int);
                }
                if touching(a, b) {
                    proof {
                        lemma_sound_pair(rects@, src, i as int, j as int);
                    }
                    proof {
                        if settled {
                            assert(!touches(rects@[i as int], rects@[j as int]));
                        }
                    }
                    let u = union(a, b);
                    let ghost old_rects = rects@;
                    rects.set(i, u);
                    rects.swap_remove(j);
                    proof {
                        lemma_merge_step(old_rects, src, i as int, j as int, rects@);
                        assert(rects@ == fold_into(old_rects, i as int, j as int));
                    }
                    changed = true;
                } else {
                    j = j + 1;
                }
            }
            i = i + 1;
        }
    }
    proof {
        reveal(sound);
    }
    rects
}

} // verus!

verus! {

/// Padding around a sprite's box, render pixels.
pub const SIM_PADDING: i32 = 4;

/// Padding around an effect's box, render pixels.
pub const FX_PADDING: i32 = 3;

/// Half the width of a sprite.
pub const SIM_HALF_W: i32 = 6;

/// Height of a sprite above its anchor.
pub const SIM_UP: i32 = 10;

/// Depth of a sprite below its anchor.
pub const SIM_DOWN: i32 = 8;

/// Radius of a halo at its widest.
pub const HALO_MAX_R: i32 = 12;

/// How far a mote drifts up over its life.
pub const MOTE_UP: i32 = 12;

/// A sprite's anchor in world pixels.
#[derive(Clone, Debug)]
pub struct SimSpot {
    pub agent_id: String,
    pub x: i32,
    pub y: i32,
}

/// The rectangle `(x, y, w, h)` cut to the render frame; zero width or height
/// where nothing of it is left.
pub open spec fn clip_box(x: int, y: int, w: int, h: int) -> Rect {
    let x0 = if x >= 0 { x } else { 0 };
    let y0 = if y >= 0 { y } else { 0 };
    let x1 = if x + w <= RENDER_W { x + w } else { RENDER_W as int };
    let y1 = if y + h <= RENDER_H { y + h } else { RENDER_H as int };
    Rect {
        x: x0 as i32,
        y: y0 as i32,
        w: (if x1 - x0 >= 0 { x1 - x0 } else { 0 }) as i32,
        h: (if y1 - y0 >= 0 { y1 - y0 } else { 0 }) as i32,
    }
}

/// Cuts a rectangle, given in wide integers, to the render frame.
fn clip_wide(x: i64, y: i64, w: i64, h: i64) -> (r: Rect)
    requires
        i32::MIN <= x <= i32::MAX,
        i32::MIN <= y <= i32::MAX,
        0 <= w <= 0x1_0000_0000,
        0 <= h <= 0x1_0000_0000,
    ensures
        r == clip_box(x as int, y as int, w as int, h as int),
        positive(r) ==> modest(r),
{
    let x0: i64 = if x >= 0 { x } else { 0 };
    let y0: i64 = if y >= 0 { y } else { 0 };
    let x1: i64 = if x + w <= RENDER_W as i64 { x + w } else { RENDER_W as i64 };
    let y1: i64 = if y + h <= RENDER_H as i64 { y + h } else { RENDER_H as i64 };
    let cw: i64 = if x1 - x0 >= 0 { x1 - x0 } else { 0 };
    let ch: i64 = if y1 - y0 >= 0 { y1 - y0 } else { 0 };
    Rect::new(x0 as i32, y0 as i32, cw as i32, ch as i32)
}

/// Cuts a rectangle to the render frame.
fn clip(r: Rect) -> (c: Rect)
    requires
        r.w >= 0,
        r.h >= 0,
    ensures
        c == clip_box(r.x as int, r.y as int, r.w as int, r.h as int),
        positive(c) ==> modest(c),
{
    clip_wide(r.x as i64, r.y as i64, r.w as i64, r.h as i64)
}

/// The box of a sprite anchored at `(x, y)` in world pixels.
pub open spec fn sim_box(x: i32, y: i32) -> Rect {
    clip_box(half(x) - SIM_HALF_W - SIM_PADDING, half(y) - SIM_UP - SIM_PADDING,
        SIM_HALF_W * 2 + SIM_PADDING * 2, SIM_UP + SIM_DOWN + SIM_PADDING * 2)
}

/// The box of a footstep at `(x, y)` in world pixels.
pub open spec fn footstep_box(x: i32, y: i32) -> Rect {
    clip_box(half(x) - FX_PADDING, half(y) - FX_PADDING, FX_PADDING * 2, FX_PADDING * 2)
}

/// The box of a mote at `(x, y)` in world pixels, with the whole of its drift.
pub open spec fn mote_box(x: i32, y: i32) -> Rect {
    clip_box(half(x) - FX_PADDING, half(y) - MOTE_UP - FX_PADDING, FX_PADDING * 2,
        MOTE_UP + FX_PADDING * 2)
}

/// The box of a halo at its widest around an anchor in world pixels.
pub open spec fn halo_box(x: i32, y: i32) -> Rect {
    clip_box(half(x) - HALO_MAX_R, half(y) - HALO_MAX_R, HALO_MAX_R * 2, HALO_MAX_R * 2)
}

/// The box of a line between two anchors in world pixels.
pub open spec fn line_box(ax: i32, ay: i32, bx: i32, by: i32) -> Rect {
    let x0 = if half(ax) <= half(bx) { half(ax) } else { half(bx) };
    let x1 = if half(ax) >= half(bx) { half(ax) } else { half(bx) };
    let y0 = if half(ay) <= half(by) { half(ay) } else { half(by) };
    let y1 = if half(ay) >= half(by) { half(ay) } else { half(by) };
    clip_box(x0 - FX_PADDING, y0 - FX_PADDING, (x1 - x0) + FX_PADDING * 2, (y1 - y0) + FX_PADDING * 2)
}

/// The anchor of the first sprite with the given agent id.
pub open spec fn spot_of(sims: Seq<SimSpot>, id: Seq<char>) -> Option<(i32, i32)>
    decreases sims.len(),
{
    if sims.len() == 0 {
        None
    } else {
        match spot_of(sims.drop_last(), id) {
            Some(p) => Some(p),
            None => if sims.last().agent_id@ == id {
                Some((sims.last().x, sims.last().y))
            } else {
                None
            },
        }
    }
}

/// The boxes of the sprites, in order.
pub open spec fn sim_boxes(s: Seq<SimSpot>) -> Seq<Rect>
    decreases s.len(),
{
    if s.len() == 0 {
        Seq::empty()
    } else {
        sim_boxes(s.drop_last()).push(sim_box(s.last().x, s.last().y))
    }
}

/// The boxes of the footsteps, in order.
pub open spec fn footstep_boxes(s: Seq<Point>) -> Seq<Rect>
    decreases s.len(),
{
    if s.len() == 0 {
        Seq::empty()
    } else {
        footstep_boxes(s.drop_last()).push(footstep_box(s.last().x, s.last().y))
    }
}

/// The boxes of the motes, in order.
pub open spec fn mote_boxes(s: Seq<Point>) -> Seq<Rect>
    decreases s.len(),
{
    if s.len() == 0 {
        Seq::empty()
    } else {
        mote_boxes(s.drop_last()).push(mote_box(s.last().x, s.last().y))
    }
}

/// The boxes of the tethers whose two ends both have a sprite.
pub open spec fn tether_boxes(ts: Seq<Tether>, sims: Seq<SimSpot>) -> Seq<Rect>
    decreases ts.len(),
{
    if ts.len() == 0 {
        Seq::empty()
    } else {
        let rest = tether_boxes(ts.drop_last(), sims);
        match (spot_of(sims, ts.last().parent@), spot_of(sims, ts.last().child@)) {
            (Some(a), Some(b)) => rest.push(line_box(a.0, a.1, b.0, b.1)),
            _ => rest,
        }
    }
}

/// The boxes of the halos whose agent has a sprite.
pub open spec fn halo_boxes(hs: Seq<Halo>, sims: Seq<SimSpot>) -> Seq<Rect>
    decreases hs.len(),
{
    if hs.len() == 0 {
        Seq::empty()
    } else {
        let rest = halo_boxes(hs.drop_last(), sims);
        match spot_of(sims, hs.last().agent_id@) {
            Some(a) => rest.push(halo_box(a.0, a.1)),
            None => rest,
        }
    }
}

/// The rectangles of positive area of `s`, in their order.
pub open spec fn positives(s: Seq<Rect>) -> Seq<Rect>
    decreases s.len(),
{
    if s.len() == 0 {
        Seq::empty()
    } else if positive(s.last()) {
        positives(s.drop_last()).push(s.last())
    } else {
        positives(s.drop_last())
    }
}

/// Every box of the moving things of a frame, in order: sprites, footsteps,
/// motes, tethers and halos, each cut to the render frame, the empty ones left out.
pub open spec fn dynamics(
    sims: Seq<SimSpot>,
    footsteps: Seq<Point>,
    motes: Seq<Point>,
    tethers: Seq<Tether>,
    halos: Seq<Halo>,
) -> Seq<Rect> {
    positives(
        sim_boxes(sims) + footstep_boxes(footsteps) + mote_boxes(motes) + tether_boxes(tethers, sims)
            + halo_boxes(halos, sims),
    )
}

/// A clipped box of positive area is modest.
proof fn lemma_clip_modest(x: int, y: int, w: int, h: int)
    requires
        i32::MIN <= x <= i32::MAX,
        i32::MIN <= y <= i32::MAX,
        0 <= w,
        0 <= h,
    ensures
        positive(clip_box(x, y, w, h)) ==> modest(clip_box(x, y, w, h)),
{
}

/// Wide-integer half of a world coordinate.
fn half_wide(v: i32) -> (r: i64)
    ensures
        r == half(v),
        -0x4000_0000 <= r <= 0x4000_0000,
{
    (v / 2) as i64
}

/// Looks up the anchor of the first sprite with the given id.
fn find_spot(sims: &Vec<SimSpot>, id: &str) -> (r: Option<(i32, i32)>)
    ensures
        r == spot_of(sims@, id@),
{
    let mut i: usize = 0;
    while i < sims.len()
        invariant
            i <= sims@.len(),
            spot_of(sims@.take(i as int), id@) is None,
        decreases sims@.len() - i,
    {
        proof {
            assert(sims@.take(i + 1).drop_last() =~= sims@.take(i as int));
        }
        if str_eq(sims[i].agent_id.as_str(), id) {
            proof {
                lemma_spot_prefix(sims@, id@, i + 1);
            }
            return Some((sims[i].x, sims[i].y));
        }
        i = i + 1;
    }
    proof {
        assert(sims@.take(i as int) =~= sims@);
    }
    None
}

/// A match found in a prefix is the match of the whole sequence.
proof fn lemma_spot_prefix(s: Seq<SimSpot>, id: Seq<char>, n: int)
    requires
        0 <= n <= s.len(),
        spot_of(s.take(n), id) is Some,
    ensures
        spot_of(s, id) == spot_of(s.take(n), id),
    decreases s.len() - n,
{
    if n < s.len() {
        assert(s.take(n + 1).drop_last() =~= s.take(n));
        lemma_spot_prefix(s, id, n + 1);
    } else {
        assert(s.take(n) =~= s);
    }
}

/// Appends `r` and keeps `out` equal to the positive boxes of `all`.
proof fn lemma_positives_push(all: Seq<Rect>, r: Rect)
    ensures
        positives(all.push(r)) == if positive(r) {
            positives(all).push(r)
        } else {
            positives(all)
        },
{
    assert(all.push(r).drop_last() =~= all);
}

/// Every positive box of a frame is modest.
proof fn lemma_positives_modest(s: Seq<Rect>)
    requires
        forall|i: int| 0 <= i < s.len() && positive(#[trigger] s[i]) ==> modest(s[i]),
    ensures
        all_modest(positives(s)),
        forall|i: int| 0 <= i < positives(s).len() ==> positive(#[trigger] positives(s)[i]),
    decreases s.len(),
{
    if s.len() > 0 {
        lemma_positives_modest(s.drop_last());
    }
}

} // verus!

verus! {

/// The box of a sprite (see `sim_box`).
fn sim_rect(x: i32, y: i32) -> (r: Rect)
    ensures
        r == sim_box(x, y),
        positive(r) ==> modest(r),
{
    let cx = half_wide(x);
    let cy = half_wide(y);
    clip_wide(
        cx - SIM_HALF_W as i64 - SIM_PADDING as i64,
        cy - SIM_UP as i64 - SIM_PADDING as i64,
        (SIM_HALF_W * 2 + SIM_PADDING * 2) as i64,
        (SIM_UP + SIM_DOWN + SIM_PADDING * 2) as i64,
    )
}

/// The box of a footstep (see `footstep_box`).
fn footstep_rect(x: i32, y: i32) -> (r: Rect)
    ensures
        r == footstep_box(x, y),
        positive(r) ==> modest(r),
{
    let cx = half_wide(x);
    let cy = half_wide(y);
    clip_wide(
        cx - FX_PADDING as i64,
        cy - FX_PADDING as i64,
        (FX_PADDING * 2) as i64,
        (FX_PADDING * 2) as i64,
    )
}

/// The box of a mote (see `mote_box`).
fn mote_rect(x: i32, y: i32) -> (r: Rect)
    ensures
        r == mote_box(x, y),
        positive(r) ==> modest(r),
{
    let cx = half_wide(x);
    let cy = half_wide(y);
    clip_wide(
        cx - FX_PADDING as i64,
        cy - MOTE_UP as i64 - FX_PADDING as i64,
        (FX_PADDING * 2) as i64,
        (MOTE_UP + FX_PADDING * 2) as i64,
    )
}

/// The box of a halo (see `halo_box`).
fn halo_rect(x: i32, y: i32) -> (r: Rect)
    ensures
        r == halo_box(x, y),
        positive(r) ==> modest(r),
{
    let cx = half_wide(x);
    let cy = half_wide(y);
    clip_wide(
        cx - HALO_MAX_R as i64,
        cy - HALO_MAX_R as i64,
        (HALO_MAX_R * 2) as i64,
        (HALO_MAX_R * 2) as i64,
    )
}

/// The box of a line between two anchors (see `line_box`).
fn line_rect(ax: i32, ay: i32, bx: i32, by: i32) -> (r: Rect)
    ensures
        r == line_box(ax, ay, bx, by),
        positive(r) ==> modest(r),
{
    let hax = half_wide(ax);
    let hbx = half_wide(bx);
    let hay = half_wide(ay);
    let hby = half_wide(by);
    let x0 = if hax <= hbx { hax } else { hbx };
    let x1 = if hax >= hbx { hax } else { hbx };
    let y0 = if hay <= hby { hay } else { hby };
    let y1 = if hay >= hby { hay } else { hby };
    clip_wide(
        x0 - FX_PADDING as i64,
        y0 - FX_PADDING as i64,
        (x1 - x0) + (FX_PADDING * 2) as i64,
        (y1 - y0) + (FX_PADDING * 2) as i64,
    )
}

/// Every positive box of `s` is modest.
pub open spec fn positive_modest(s: Seq<Rect>) -> bool {
    forall|i: int| 0 <= i < s.len() && positive(#[trigger] s[i]) ==> modest(s[i])
}

/// Appends one box to the running list of all boxes and to the list of the
/// positive ones.
fn push_box(out: &mut Vec<Rect>, r: Rect, Ghost(all): Ghost<Seq<Rect>>)
    requires
        old(out)@ == positives(all),
    ensures
        final(out)@ == positives(all.push(r)),
{
    proof {
        lemma_positives_push(all, r);
    }
    if r.w > 0 && r.h > 0 {
        out.push(r);
    }
}

/// Boxes of everything that moves in a frame: sprites, footsteps, motes,
/// tethers whose two ends have a sprite, and halos whose agent has one; each
/// cut to the render frame, the empty ones left out.
pub fn collect_dynamics(
    sims: &Vec<SimSpot>,
    footsteps: &Vec<Point>,
    motes: &Vec<Point>,
    tethers: &Vec<Tether>,
    halos: &Vec<Halo>,
) -> (out: Vec<Rect>)
    ensures
        out@ == dynamics(sims@, footsteps@, motes@, tethers@, halos@),
        all_modest(out@),
{
    let mut out: Vec<Rect> = Vec::new();
    let ghost mut all: Seq<Rect> = Seq::empty();
    let mut i: usize = 0;
    while i < sims.len()
        invariant
            i <= sims@.len(),
            all == sim_boxes(sims@.take(i as int)),
            out@ == positives(all),
            positive_modest(all),
        decreases sims@.len() - i,
    {
        let r = sim_rect(sims[i].x, sims[i].y);
        push_box(&mut out, r, Ghost(all));
        proof {
            assert(sims@.take(i + 1).drop_last() =~= sims@.take(i as int));
            all = all.push(r);
        }
        i = i + 1;
    }
    let ghost base = all;
    assert(sims@.take(sims@.len() as int) =~= sims@);
    i = 0;
    while i < footsteps.len()
        invariant
            i <= footsteps@.len(),
            all == base + footstep_boxes(footsteps@.take(i as int)),
            base == sim_boxes(sims@),
            out@ == positives(all),
            positive_modest(all),
        decreases footsteps@.len() - i,
    {
        let r = footstep_rect(footsteps[i].x, footsteps[i].y);
        push_box(&mut out, r, Ghost(all));
        proof {
            assert(footsteps@.take(i + 1).drop_last() =~= footsteps@.take(i as int));
            assert(base + footstep_boxes(footsteps@.take(i + 1)) =~= all.push(r));
            all = all.push(r);
        }
        i = i + 1;
    }
    let ghost base = all;
    assert(footsteps@.take(footsteps@.len() as int) =~= footsteps@);
    i = 0;
    while i < motes.len()
        invariant
            i <= motes@.len(),
            all == base + mote_boxes(motes@.take(i as int)),
            base == sim_boxes(sims@) + footstep_boxes(footsteps@),
            out@ == positives(all),
            positive_modest(all),
        decreases motes@.len() - i,
    {
        let r = mote_rect(motes[i].x, motes[i].y);
        push_box(&mut out, r, Ghost(all));
        proof {
            assert(motes@.take(i + 1).drop_last() =~= motes@.take(i as int));
            assert(base + mote_boxes(motes@.take(i + 1)) =~= all.push(r));
            all = all.push(r);
        }
        i = i + 1;
    }
    let ghost base = all;
    assert(motes@.take(motes@.len() as int) =~= motes@);
    i = 0;
    while i < tethers.len()
        invariant
            i <= tethers@.len(),
            all == base + tether_boxes(tethers@.take(i as int), sims@),
            base == sim_boxes(sims@) + footstep_boxes(footsteps@) + mote_boxes(motes@),
            out@ == positives(all),
            positive_modest(all),
        decreases tethers@.len() - i,
    {
        proof {
            assert(tethers@.take(i + 1).drop_last() =~= tethers@.take(i as int));
        }
        let parent = find_spot(sims, tethers[i].parent.as_str());
        let child = find_spot(sims, tethers[i].child.as_str());
        match (parent, child) {
            (Some(a), Some(b)) => {
                let r = line_rect(a.0, a.1, b.0, b.1);
                push_box(&mut out, r, Ghost(all));
                proof {
                    assert(base + tether_boxes(tethers@.take(i + 1), sims@) =~= all.push(r));
                    all = all.push(r);
                }
            },
            _ => {},
        }
        i = i + 1;
    }
    let ghost base = all;
    assert(tethers@.take(tethers@.len() as int) =~= tethers@);
    i = 0;
    while i < halos.len()
        invariant
            i <= halos@.len(),
            all == base + halo_boxes(halos@.take(i as int), sims@),
            base == sim_boxes(sims@) + footstep_boxes(footsteps@) + mote_boxes(motes@) + tether_boxes(tethers@, sims@),
            out@ == positives(all),
            positive_modest(all),
        decreases halos@.len() - i,
    {
        proof {
            assert(halos@.take(i + 1).drop_last() =~= halos@.take(i as int));
        }
        match find_spot(sims, halos[i].agent_id.as_str()) {
            Some(a) => {
                let r = halo_rect(a.0, a.1);
                push_box(&mut out, r, Ghost(all));
                proof {
                    assert(base + halo_boxes(halos@.take(i + 1), sims@) =~= all.push(r));
                    all = all.push(r);
                }
            },
            None => {},
        }
        i = i + 1;
    }
    proof {
        assert(halos@.take(halos@.len() as int) =~= halos@);
        lemma_positives_modest(all);
    }
    out
}

} // verus!

verus! {

/// `first` followed by `rest`, ready to merge when both are modest.
fn joined(first: &Vec<Rect>, rest: &[Rect]) -> (out: Vec<Rect>)
    requires
        all_modest(first@),
        all_modest(rest@),
    ensures
        out@ == first@ + rest@,
        all_modest(out@),
{
    let mut out: Vec<Rect> = Vec::new();
    let mut i: usize = 0;
    while i < first.len()
        invariant
            i <= first@.len(),
            out@ == first@.take(i as int),
        decreases first@.len() - i,
    {
        out.push(first[i]);
        proof {
            assert(first@.take(i + 1) =~= out@);
        }
        i = i + 1;
    }
    assert(first@.take(first@.len() as int) =~= first@);
    i = 0;
    while i < rest.len()
        invariant
            i <= rest@.len(),
            out@ == first@ + rest@.take(i as int),
        decreases rest@.len() - i,
    {
        out.push(rest[i]);
        proof {
            assert(first@ + rest@.take(i + 1) =~= out@);
        }
        i = i + 1;
    }
    proof {
        assert(rest@.take(rest@.len() as int) =~= rest@);
        assert forall|k: int| 0 <= k < out@.len() && positive(#[trigger] out@[k]) implies modest(
            out@[k],
        ) by {
            if k >= first@.len() {
                assert(out@[k] == rest@[k - first@.len()]);
            } else {
                assert(out@[k] == first@[k]);
            }
        }
    }
    out
}

/// Merges the boxes of what moves this frame with the boxes of the last frame.
pub fn compute_frame_dirties(
    sims: &Vec<SimSpot>,
    footsteps: &Vec<Point>,
    motes: &Vec<Point>,
    tethers: &Vec<Tether>,
    halos: &Vec<Halo>,
    last_dirty: &[Rect],
) -> (out: Vec<Rect>)
    requires
        all_modest(last_dirty@),
    ensures
        out@ == merge_result(dynamics(sims@, footsteps@, motes@, tethers@, halos@) + last_dirty@),
        merged(out@, dynamics(sims@, footsteps@, motes@, tethers@, halos@) + last_dirty@),
{
    let this_frame = collect_dynamics(sims, footsteps, motes, tethers, halos);
    let combined = joined(&this_frame, last_dirty);
    proof {
        lemma_modest_fits(combined@);
    }
    merge_rects(combined)
}

/// Keeps the boxes of the last frame, so that the next frame repaints the
/// places its sprites have left.
pub struct DirtyTracker {
    last: Vec<Rect>,
}

impl View for DirtyTracker {
    type V = Seq<Rect>;

    closed spec fn view(&self) -> Seq<Rect> {
        self.last@
    }
}

impl DirtyTracker {
    /// The saved boxes are small enough to merge.
    #[verifier::type_invariant]
    spec fn saved_boxes_modest(self) -> bool {
        all_modest(self.last@)
    }

    /// A tracker with nothing saved.
    pub fn new() -> (t: Self)
        ensures
            t@ == Seq::<Rect>::empty(),
    {
        DirtyTracker { last: Vec::new() }
    }

    /// The boxes saved from the last frame.
    pub fn last(&self) -> (r: &[Rect])
        ensures
            r@ == self@,
    {
        self.last.as_slice()
    }

    /// The dirty set of the next frame: what `merge_rects` gives on this
    /// frame's boxes followed by the saved ones (see `merge_result`). This
    /// frame's boxes are saved in their place.
    pub fn step(
        &mut self,
        sims: &Vec<SimSpot>,
        footsteps: &Vec<Point>,
        motes: &Vec<Point>,
        tethers: &Vec<Tether>,
        halos: &Vec<Halo>,
    ) -> (out: Vec<Rect>)
        ensures
            out@ == merge_result(dynamics(sims@, footsteps@, motes@, tethers@, halos@) + old(self)@),
            merged(out@, dynamics(sims@, footsteps@, motes@, tethers@, halos@) + old(self)@),
            final(self)@ == dynamics(sims@, footsteps@, motes@, tethers@, halos@),
    {
        proof {
            use_type_invariant(&*self);
        }
        let this_frame = collect_dynamics(sims, footsteps, motes, tethers, halos);
        let combined = joined(&this_frame, self.last.as_slice());
        self.last = this_frame;
        proof {
            lemma_modest_fits(combined@);
        }
        merge_rects(combined)
    }
}

impl Default for DirtyTracker {
    fn default() -> (t: Self)
        ensures
            t@ == Seq::<Rect>::empty(),
    {
        DirtyTracker::new()
    }
}

} // verus!
