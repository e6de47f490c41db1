//! Aspect-preserving nearest-neighbour fit of the render frame into a
//! target of any size, centred with black bars on the spare axis.

use vstd::prelude::*;

verus! {

/// Where the scaled image lands in the destination buffer.
#[derive(Clone, Copy, Debug, PartialEq, Eq, Structural)]
pub struct Letterbox {
    pub dst_x: i32,
    pub dst_y: i32,
    pub visible_w: i32,
    pub visible_h: i32,
}

/// Placement plus per-output-pixel source column and row lookup tables.
#[derive(Clone, Debug)]
pub struct ScaleFit {
    pub letterbox: Letterbox,
    pub col_src: Vec<u16>,
    pub row_src: Vec<u16>,
}

/// The largest size that keeps the source aspect and fits the target:
/// height-limited when the derived width fits, else width-limited; nothing
/// when any dimension is not positive.
pub open spec fn scaled_size(sw: int, sh: int, tw: int, th: int) -> (int, int) {
    if sw > 0 && sh > 0 && tw > 0 && th > 0 {
        let try_w = (sw * th) / sh;
        if try_w <= tw {
            (try_w, th)
        } else {
            (tw, (sh * tw) / sw)
        }
    } else {
        (0, 0)
    }
}

/// Half of the spare room, or zero when there is none.
pub open spec fn centre_offset(t: int, v: int) -> int {
    if t - v > 0 {
        (t - v) / 2
    } else {
        0
    }
}

/// Source index sampled by output index `d` when `n` outputs cover `s`
/// source pixels, as stored in a `u16` table.
pub open spec fn sample(d: int, s: int, n: int) -> u16 {
    ((d * s) / n) as u16
}

/// `fit` places a `sw x sh` source into a `tw x th` target: the visible
/// size is `scaled_size`, centred on both axes, and output index `d` of each
/// lookup table samples source index `d * s / n`.
pub open spec fn fits_target(fit: ScaleFit, sw: int, sh: int, tw: int, th: int) -> bool {
    let (vw, vh) = scaled_size(sw, sh, tw, th);
    &&& fit.letterbox.visible_w == vw
    &&& fit.letterbox.visible_h == vh
    &&& fit.letterbox.dst_x == centre_offset(tw, vw)
    &&& fit.letterbox.dst_y == centre_offset(th, vh)
    &&& fit.col_src@.len() == vw
    &&& fit.row_src@.len() == vh
    &&& forall|d: int| 0 <= d < vw ==> fit.col_src@[d] == sample(d, sw, vw)
    &&& forall|d: int| 0 <= d < vh ==> fit.row_src@[d] == sample(d, sh, vh)
}

proof fn lemma_sizes(sw: int, sh: int, tw: int, th: int)
    requires
        0 < sw <= i32::MAX,
        0 < sh <= i32::MAX,
        0 < tw <= i32::MAX,
        0 < th <= i32::MAX,
    ensures
        0 <= sw * th <= i64::MAX,
        0 <= sh * tw <= i64::MAX,
        (sw * th) / sh > tw ==> 0 <= (sh * tw) / sw < th,
        0 <= (sw * th) / sh,
{
    assert(0 <= sw * th <= i64::MAX) by (nonlinear_arith)
        requires
            0 < sw <= i32::MAX,
            0 < th <= i32::MAX,
    ;
    assert(0 <= sh * tw <= i64::MAX) by (nonlinear_arith)
        requires
            0 < sh <= i32::MAX,
            0 < tw <= i32::MAX,
    ;
    assert(0 <= (sw * th) / sh) by (nonlinear_arith)
        requires
            0 < sw,
            0 < th,
            0 < sh,
    ;
    assert((sw * th) / sh > tw ==> (sh * tw) / sw < th) by (nonlinear_arith)
        requires
            0 < sw,
            0 < sh,
            0 < tw,
            0 < th,
    {
        if (sw * th) / sh > tw {
            assert((sw * th) / sh >= tw + 1);
            assert(sw * th >= ((sw * th) / sh) * sh);
            assert(sw * th >= (tw + 1) * sh);
            assert(sh * tw < sw * th);
            assert((sh * tw) / sw <= (sh * tw) / sw);
            assert(((sh * tw) / sw) * sw <= sh * tw);
        }
    }
    assert(0 <= (sh * tw) / sw) by (nonlinear_arith)
        requires
            0 < sw,
            0 < sh,
            0 < tw,
    ;
}

/// Lookup table of `n` entries: entry `d` is the source index `d * s / n`.
fn sample_table(s: i32, n: i32) -> (r: Vec<u16>)
    requires
        0 < s,
        0 <= n,
    ensures
        r@.len() == n,
        forall|d: int| 0 <= d < n ==> r@[d] == sample(d, s as int, n as int),
{
    let mut out: Vec<u16> = Vec::new();
    let mut d: i32 = 0;
    while d < n
        invariant
            0 < s,
            0 <= d <= n,
            out@.len() == d,
            forall|k: int| 0 <= k < d ==> out@[k] == sample(k, s as int, n as int),
        decreases n - d,
    {
        proof {
            assert(0 <= d as int * s as int <= i64::MAX) by (nonlinear_arith)
                requires
                    0 <= d <= i32::MAX,
                    0 < s <= i32::MAX,
            ;
        }
        let v = (d as i64 * s as i64) / n as i64;
        out.push(v as u16);
        d = d + 1;
    }
    out
}

/// Aspect-preserving fit of a `src_w x src_h` frame into `target_w x
/// target_h`: exact integer multiples fill the target, other targets get a
/// centred pillarbox or letterbox. Non-positive dimensions give an empty fit.
pub fn compute_scale_fit(src_w: i32, src_h: i32, target_w: i32, target_h: i32) -> (r: ScaleFit)
    ensures
        fits_target(r, src_w as int, src_h as int, target_w as int, target_h as int),
{
    let (scaled_w, scaled_h) = if src_w > 0 && src_h > 0 && target_w > 0 && target_h > 0 {
        proof {
            lemma_sizes(src_w as int, src_h as int, target_w as int, target_h as int);
        }
        let try_w = (src_w as i64 * target_h as i64) / src_h as i64;
        if try_w <= target_w as i64 {
            (try_w as i32, target_h)
        } else {
            let try_h = (src_h as i64 * target_w as i64) / src_w as i64;
            (target_w, try_h as i32)
        }
    } else {
        (0, 0)
    };
    let dst_x = if target_w - scaled_w > 0 { (target_w - scaled_w) / 2 } else { 0 };
    let dst_y = if target_h - scaled_h > 0 { (target_h - scaled_h) / 2 } else { 0 };
    let col_src = if scaled_w > 0 { sample_table(src_w, scaled_w) } else { Vec::new() };
    let row_src = if scaled_h > 0 { sample_table(src_h, scaled_h) } else { Vec::new() };
    ScaleFit {
        letterbox: Letterbox { dst_x, dst_y, visible_w: scaled_w, visible_h: scaled_h },
        col_src,
        row_src,
    }
}

/// The fit never spills out of the target: the visible image plus its
/// offset stays inside the target on both axes, and the image keeps the
/// source aspect up to rounding.
pub proof fn law_fit_inside_target(sw: int, sh: int, tw: int, th: int)
    requires
        0 < sw <= i32::MAX,
        0 < sh <= i32::MAX,
        0 < tw <= i32::MAX,
        0 < th <= i32::MAX,
    ensures
        ({
            let (vw, vh) = scaled_size(sw, sh, tw, th);
            &&& 0 <= vw <= tw
            &&& 0 <= vh <= th
            &&& centre_offset(tw, vw) + vw <= tw
            &&& centre_offset(th, vh) + vh <= th
            &&& (vw == tw || vh == th)
        }),
{
    lemma_sizes(sw, sh, tw, th);
}

} // verus!
