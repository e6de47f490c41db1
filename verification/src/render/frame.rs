//! The in-memory render frame: tight-packed RGB, three bytes per pixel, row
//! by row, with the clipped drawing primitives that the scene uses.

use vstd::prelude::*;
use crate::render::geometry::{Point, Rect};
use crate::render::palette::Rgb;

verus! {

/// Byte offset of pixel `(x, y)` in a frame `w` pixels wide.
pub open spec fn offset(w: int, x: int, y: int) -> int {
    (y * w + x) * 3
}

/// The colour stored at pixel `(x, y)` of a frame `w` pixels wide.
pub open spec fn pixel_of(buf: Seq<u8>, w: int, x: int, y: int) -> Rgb {
    let i = offset(w, x, y);
    Rgb(buf[i], buf[i + 1], buf[i + 2])
}

/// `buf` with the three bytes of pixel `(x, y)` set to `c`.
pub open spec fn painted(buf: Seq<u8>, w: int, x: int, y: int, c: Rgb) -> Seq<u8> {
    let i = offset(w, x, y);
    buf.update(i, c.0).update(i + 1, c.1).update(i + 2, c.2)
}

/// Pixel `(x, y)` lies in a `w` by `h` frame.
pub open spec fn inside(w: int, h: int, x: int, y: int) -> bool {
    0 <= x < w && 0 <= y < h
}

/// The bytes of a pixel inside the frame lie inside the buffer.
pub proof fn lemma_offset_bounds(w: int, h: int, x: int, y: int)
    requires
        inside(w, h, x, y),
    ensures
        0 <= offset(w, x, y),
        offset(w, x, y) + 3 <= w * h * 3,
{
    assert(0 <= y * w) by (nonlinear_arith)
        requires
            0 <= y,
            0 <= w,
    ;
    assert(y * w + x + 1 <= w * h) by (nonlinear_arith)
        requires
            0 <= x < w,
            0 <= y < h,
    ;
}

/// Two different pixels of a row `w` wide own disjoint bytes.
proof fn lemma_offsets_apart(w: int, h: int, x: int, y: int, x2: int, y2: int)
    requires
        inside(w, h, x, y),
        inside(w, h, x2, y2),
        x != x2 || y != y2,
    ensures
        offset(w, x, y) + 3 <= offset(w, x2, y2) || offset(w, x2, y2) + 3 <= offset(w, x, y),
{
    if y == y2 {
    } else if y < y2 {
        assert(y * w + w <= y2 * w) by (nonlinear_arith)
            requires
                y < y2,
                0 <= w,
        ;
    } else {
        assert(y2 * w + w <= y * w) by (nonlinear_arith)
            requires
                y2 < y,
                0 <= w,
        ;
    }
}

/// Painting one pixel changes that pixel and no other.
proof fn lemma_painted(buf: Seq<u8>, w: int, h: int, x: int, y: int, c: Rgb, x2: int, y2: int)
    requires
        buf.len() == w * h * 3,
        inside(w, h, x, y),
        inside(w, h, x2, y2),
    ensures
        painted(buf, w, x, y, c).len() == buf.len(),
        pixel_of(painted(buf, w, x, y, c), w, x2, y2) == if x2 == x && y2 == y {
            c
        } else {
            pixel_of(buf, w, x2, y2)
        },
{
    lemma_offset_bounds(w, h, x, y);
    lemma_offset_bounds(w, h, x2, y2);
    if x2 != x || y2 != y {
        lemma_offsets_apart(w, h, x, y, x2, y2);
    }
}

/// An RGB frame of `width` by `height` pixels.
pub struct RenderFrame {
    width: u32,
    height: u32,
    buf: Vec<u8>,
}

impl RenderFrame {
    /// The buffer holds three bytes for each pixel.
    pub closed spec fn wf(&self) -> bool {
        &&& self.buf@.len() == self.width * self.height * 3
        &&& self.width * self.height * 3 <= usize::MAX
    }

    /// Width in pixels.
    pub closed spec fn w(&self) -> int {
        self.width as int
    }

    /// Height in pixels.
    pub closed spec fn h(&self) -> int {
        self.height as int
    }

    /// The bytes of the frame, row by row.
    pub closed spec fn bytes(&self) -> Seq<u8> {
        self.buf@
    }

    /// The colour of pixel `(x, y)`.
    pub open spec fn pixel(&self, x: int, y: int) -> Rgb {
        pixel_of(self.bytes(), self.w(), x, y)
    }

    /// A black frame.
    pub fn new(width: u32, height: u32) -> (f: Self)
        requires
            width * height * 3 <= usize::MAX,
        ensures
            f.wf(),
            f.w() == width,
            f.h() == height,
            f.bytes() == Seq::new((width * height * 3) as nat, |i: int| 0u8),
    {
        let len: usize = (width as usize) * (height as usize) * 3;
        let mut buf: Vec<u8> = Vec::new();
        let mut i: usize = 0;
        while i < len
            invariant
                i <= len,
                buf@ == Seq::new(i as nat, |k: int| 0u8),
            decreases len - i,
        {
            buf.push(0);
            proof {
                assert(buf@ =~= Seq::new((i + 1) as nat, |k: int| 0u8));
            }
            i = i + 1;
        }
        RenderFrame { width, height, buf }
    }

    /// Width in pixels.
    pub fn width(&self) -> (r: u32)
        ensures
            r == self.w(),
    {
        self.width
    }

    /// Height in pixels.
    pub fn height(&self) -> (r: u32)
        ensures
            r == self.h(),
    {
        self.height
    }

    /// The bytes of the frame, row by row, three per pixel.
    pub fn rgb_bytes(&self) -> (r: &[u8])
        requires
            self.wf(),
        ensures
            r@ == self.bytes(),
            r@.len() == self.w() * self.h() * 3,
    {
        self.buf.as_slice()
    }

    /// Paints every pixel.
    pub fn clear(&mut self, c: Rgb)
        requires
            old(self).wf(),
        ensures
            final(self).wf(),
            final(self).w() == old(self).w(),
            final(self).h() == old(self).h(),
            forall|x: int, y: int|
                inside(old(self).w(), old(self).h(), x, y) ==> #[trigger] final(self).pixel(x, y)
                    == c,
    {
        let n: usize = self.buf.len();
        let ghost w0 = self.width;
        let ghost h0 = self.height;
        assert(n % 3 == 0) by (nonlinear_arith)
            requires
                n == w0 * h0 * 3,
        ;
        let mut i: usize = 0;
        while i < n
            invariant
                self.width == w0,
                self.height == h0,
                n == self.buf@.len(),
                n == self.width * self.height * 3,
                n % 3 == 0,
                i % 3 == 0,
                i <= n,
                forall|k: int| 0 <= k < i ==> #[trigger] self.buf@[k] == (if k % 3 == 0 {
                    c.0
                } else if k % 3 == 1 {
                    c.1
                } else {
                    c.2
                }),
            decreases n - i,
        {
            self.buf.set(i, c.0);
            self.buf.set(i + 1, c.1);
            self.buf.set(i + 2, c.2);
            i = i + 3;
        }
        proof {
            assert forall|x: int, y: int| inside(self.w(), self.h(), x, y) implies #[trigger] self.pixel(
                x,
                y,
            ) == c by {
                lemma_offset_bounds(self.w(), self.h(), x, y);
                let o = offset(self.w(), x, y);
                assert(o % 3 == 0) by (nonlinear_arith)
                    requires
                        o == (y * self.w() + x) * 3,
                ;
                assert((o + 1) % 3 == 1 && (o + 2) % 3 == 2);
            }
        }
    }

    /// The colour of a pixel; black outside the frame.
    pub fn get_pixel(&self, x: i32, y: i32) -> (c: Rgb)
        requires
            self.wf(),
        ensures
            c == if inside(self.w(), self.h(), x as int, y as int) {
                self.pixel(x as int, y as int)
            } else {
                Rgb(0, 0, 0)
            },
    {
        if x < 0 || y < 0 || (x as u32) >= self.width || (y as u32) >= self.height {
            return Rgb(0, 0, 0);
        }
        proof {
            lemma_offset_bounds(self.w(), self.h(), x as int, y as int);
        }
        let i = self.idx(x as u32, y as u32);
        Rgb(self.buf[i], self.buf[i + 1], self.buf[i + 2])
    }

    /// Byte offset of a pixel inside the frame.
    fn idx(&self, x: u32, y: u32) -> (i: usize)
        requires
            self.wf(),
            inside(self.w(), self.h(), x as int, y as int),
        ensures
            i == offset(self.w(), x as int, y as int),
            i + 3 <= self.bytes().len(),
    {
        proof {
            lemma_offset_bounds(self.w(), self.h(), x as int, y as int);
        }
        ((y as usize) * (self.width as usize) + (x as usize)) * 3
    }

    /// Paints a pixel that lies inside the frame.
    fn put(&mut self, x: u32, y: u32, c: Rgb)
        requires
            old(self).wf(),
            inside(old(self).w(), old(self).h(), x as int, y as int),
        ensures
            final(self).wf(),
            final(self).w() == old(self).w(),
            final(self).h() == old(self).h(),
            final(self).bytes() == painted(old(self).bytes(), old(self).w(), x as int, y as int, c),
    {
        let i = self.idx(x, y);
        self.buf.set(i, c.0);
        self.buf.set(i + 1, c.1);
        self.buf.set(i + 2, c.2);
    }
}

impl RenderFrame {
    /// Paints a pixel inside the frame; every other pixel keeps its colour.
    fn paint(&mut self, x: u32, y: u32, c: Rgb)
        requires
            old(self).wf(),
            inside(old(self).w(), old(self).h(), x as int, y as int),
        ensures
            final(self).wf(),
            final(self).w() == old(self).w(),
            final(self).h() == old(self).h(),
            forall|px: int, py: int|
                inside(old(self).w(), old(self).h(), px, py) ==> #[trigger] final(self).pixel(px, py)
                    == if px == x && py == y {
                    c
                } else {
                    old(self).pixel(px, py)
                },
    {
        let ghost before = self.bytes();
        self.put(x, y, c);
        proof {
            assert forall|px: int, py: int| inside(self.w(), self.h(), px, py) implies #[trigger] self.pixel(
                px,
                py,
            ) == if px == x && py == y {
                c
            } else {
                pixel_of(before, self.w(), px, py)
            } by {
                lemma_painted(before, self.w(), self.h(), x as int, y as int, c, px, py);
            }
        }
    }

    /// Paints one pixel; a pixel outside the frame is ignored.
    pub fn set_pixel(&mut self, x: i32, y: i32, c: Rgb)
        requires
            old(self).wf(),
        ensures
            repainted(*old(self), *final(self), |px: int, py: int| px == x && py == y, c),
    {
        if x < 0 || y < 0 {
            return;
        }
        let (xu, yu) = (x as u32, y as u32);
        if xu >= self.width || yu >= self.height {
            return;
        }
        self.paint(xu, yu, c);
    }

    /// Paints the part of `r` that lies in the frame.
    pub fn fill_rect(&mut self, r: Rect, c: Rgb)
        requires
            old(self).wf(),
        ensures
            repainted(*old(self), *final(self), |px: int, py: int| in_rect(r, px, py), c),
    {
        let ghost before = *self;
        let x0: i64 = if r.x >= 0 { r.x as i64 } else { 0 };
        let y0: i64 = if r.y >= 0 { r.y as i64 } else { 0 };
        let x1: i64 = if r.x as i64 + r.w as i64 <= self.width as i64 {
            r.x as i64 + r.w as i64
        } else {
            self.width as i64
        };
        let y1: i64 = if r.y as i64 + r.h as i64 <= self.height as i64 {
            r.y as i64 + r.h as i64
        } else {
            self.height as i64
        };
        if x0 >= x1 || y0 >= y1 {
            return;
        }
        let mut y: i64 = y0;
        while y < y1
            invariant
                self.wf(),
                self.w() == before.w(),
                self.h() == before.h(),
                0 <= x0 < x1 <= self.w(),
                0 <= y0 <= y <= y1 <= self.h(),
                x0 == (if r.x >= 0 { r.x as int } else { 0 }),
                y0 == (if r.y >= 0 { r.y as int } else { 0 }),
                x1 == (if r.x + r.w <= self.w() { r.x + r.w } else { self.w() }),
                y1 == (if r.y + r.h <= self.h() { r.y + r.h } else { self.h() }),
                forall|px: int, py: int|
                    inside(self.w(), self.h(), px, py) ==> #[trigger] self.pixel(px, py) == if in_rect(r, px, py)
                        && py < y {
                        c
                    } else {
                        before.pixel(px, py)
                    },
            decreases y1 - y,
        {
            let mut x: i64 = x0;
            while x < x1
                invariant
                    self.wf(),
                    self.w() == before.w(),
                    self.h() == before.h(),
                    0 <= x0 <= x <= x1 <= self.w(),
                    0 <= y0 <= y < y1 <= self.h(),
                    x0 == (if r.x >= 0 { r.x as int } else { 0 }),
                    x1 == (if r.x + r.w <= self.w() { r.x + r.w } else { self.w() }),
                    y0 == (if r.y >= 0 { r.y as int } else { 0 }),
                    y1 == (if r.y + r.h <= self.h() { r.y + r.h } else { self.h() }),
                    forall|px: int, py: int|
                        inside(self.w(), self.h(), px, py) ==> #[trigger] self.pixel(px, py) == if in_rect(r, px, py)
                            && (py < y || (py == y && px < x)) {
                            c
                        } else {
                            before.pixel(px, py)
                        },
                decreases x1 - x,
            {
                self.paint(x as u32, y as u32, c);
                x = x + 1;
            }
            y = y + 1;
        }
    }

    /// Paints the pixels from `x0` to `x1`, both included, of row `y`.
    pub fn draw_hline(&mut self, x0: i32, x1: i32, y: i32, c: Rgb)
        requires
            old(self).wf(),
        ensures
            repainted(
                *old(self),
                *final(self),
                |px: int, py: int| py == y && between(px, x0 as int, x1 as int),
                c,
            ),
    {
        let ghost before = *self;
        let (xa, xb) = if x0 <= x1 { (x0 as i64, x1 as i64) } else { (x1 as i64, x0 as i64) };
        let mut x: i64 = xa;
        while x <= xb
            invariant
                self.wf(),
                self.w() == before.w(),
                self.h() == before.h(),
                xa <= x <= xb + 1,
                xa == (if x0 <= x1 { x0 } else { x1 }),
                xb == (if x0 <= x1 { x1 } else { x0 }),
                forall|px: int, py: int|
                    inside(self.w(), self.h(), px, py) ==> #[trigger] self.pixel(px, py) == if py == y
                        && xa <= px < x {
                        c
                    } else {
                        before.pixel(px, py)
                    },
            decreases xb + 1 - x,
        {
            self.set_pixel(x as i32, y, c);
            x = x + 1;
        }
    }

    /// Paints the pixels from `y0` to `y1`, both included, of column `x`.
    pub fn draw_vline(&mut self, x: i32, y0: i32, y1: i32, c: Rgb)
        requires
            old(self).wf(),
        ensures
            repainted(
                *old(self),
                *final(self),
                |px: int, py: int| px == x && between(py, y0 as int, y1 as int),
                c,
            ),
    {
        let ghost before = *self;
        let (ya, yb) = if y0 <= y1 { (y0 as i64, y1 as i64) } else { (y1 as i64, y0 as i64) };
        let mut y: i64 = ya;
        while y <= yb
            invariant
                self.wf(),
                self.w() == before.w(),
                self.h() == before.h(),
                ya <= y <= yb + 1,
                ya == (if y0 <= y1 { y0 } else { y1 }),
                yb == (if y0 <= y1 { y1 } else { y0 }),
                forall|px: int, py: int|
                    inside(self.w(), self.h(), px, py) ==> #[trigger] self.pixel(px, py) == if px == x
                        && ya <= py < y {
                        c
                    } else {
                        before.pixel(px, py)
                    },
            decreases yb + 1 - y,
        {
            self.set_pixel(x, y as i32, c);
            y = y + 1;
        }
    }
}

impl RenderFrame {
    /// Paints the one-pixel border of `r`.
    pub fn stroke_rect(&mut self, r: Rect, c: Rgb)
        requires
            old(self).wf(),
            r.w > 0 && r.h > 0 ==> r.x + r.w <= i32::MAX && r.y + r.h <= i32::MAX,
        ensures
            repainted(*old(self), *final(self), |px: int, py: int| on_border(r, px, py), c),
    {
        if r.w <= 0 || r.h <= 0 {
            return;
        }
        let ghost f0 = *self;
        self.draw_hline(r.x, r.x + r.w - 1, r.y, c);
        let ghost f1 = *self;
        self.draw_hline(r.x, r.x + r.w - 1, r.y + r.h - 1, c);
        let ghost f2 = *self;
        self.draw_vline(r.x, r.y, r.y + r.h - 1, c);
        let ghost f3 = *self;
        self.draw_vline(r.x + r.w - 1, r.y, r.y + r.h - 1, c);
        proof {
            assert forall|px: int, py: int| inside(f0.w(), f0.h(), px, py) implies #[trigger] self.pixel(
                px,
                py,
            ) == if on_border(r, px, py) {
                c
            } else {
                f0.pixel(px, py)
            } by {
                assert(f1.pixel(px, py) == f1.pixel(px, py));
                assert(f2.pixel(px, py) == f2.pixel(px, py));
                assert(f3.pixel(px, py) == f3.pixel(px, py));
            }
        }
    }

    /// Paints the disc of radius `r` around `(cx, cy)`: every pixel whose
    /// squared distance from the centre is at most `r * r`.
    pub fn fill_circle(&mut self, cx: i32, cy: i32, r: i32, c: Rgb)
        requires
            old(self).wf(),
            r <= 0x7fff,
            r > 0 ==> i32::MIN + r <= cx <= i32::MAX - r,
            r > 0 ==> i32::MIN + r <= cy <= i32::MAX - r,
        ensures
            repainted(
                *old(self),
                *final(self),
                |px: int, py: int| r > 0 && in_disc(px - cx, py - cy, r as int),
                c,
            ),
    {
        if r <= 0 {
            return;
        }
        let ghost before = *self;
        assert(r * r <= 0x7fff * 0x7fff) by (nonlinear_arith)
            requires
                0 < r <= 0x7fff,
        ;
        let r2 = r * r;
        let mut dy: i32 = -r;
        proof {
            assert forall|px: int, py: int| #[trigger] in_disc(px - cx, py - cy, r as int) implies -r <= py - cy by {
                lemma_disc_bounds(px - cx, py - cy, r as int);
            }
        }
        while dy <= r
            invariant
                self.wf(),
                self.w() == before.w(),
                self.h() == before.h(),
                0 < r <= 0x7fff,
                r2 == r * r,
                i32::MIN + r <= cx <= i32::MAX - r,
                i32::MIN + r <= cy <= i32::MAX - r,
                -r <= dy <= r + 1,
                forall|px: int, py: int|
                    inside(self.w(), self.h(), px, py) ==> #[trigger] self.pixel(px, py) == if py - cy < dy
                        && in_disc(px - cx, py - cy, r as int) {
                        c
                    } else {
                        before.pixel(px, py)
                    },
            decreases r + 1 - dy,
        {
            assert(0 <= dy * dy <= r * r) by (nonlinear_arith)
                requires
                    -r <= dy <= r,
            ;
            let dy2 = dy * dy;
            let mut dx: i32 = -r;
            proof {
                assert forall|px: int, py: int| #[trigger] in_disc(px - cx, py - cy, r as int) implies -r <= px
                    - cx by {
                    lemma_disc_bounds(px - cx, py - cy, r as int);
                }
            }
            while dx <= r
                invariant
                    self.wf(),
                    self.w() == before.w(),
                    self.h() == before.h(),
                    0 < r <= 0x7fff,
                    r2 == r * r,
                    dy2 == dy * dy,
                    0 <= dy2 <= r2,
                    i32::MIN + r <= cx <= i32::MAX - r,
                    i32::MIN + r <= cy <= i32::MAX - r,
                    -r <= dy <= r,
                    -r <= dx <= r + 1,
                    forall|px: int, py: int|
                        inside(self.w(), self.h(), px, py) ==> #[trigger] self.pixel(px, py) == if (py
                            - cy < dy || (py - cy == dy && px - cx < dx)) && in_disc(
                            px - cx,
                            py - cy,
                            r as int,
                        ) {
                            c
                        } else {
                            before.pixel(px, py)
                        },
                decreases r + 1 - dx,
            {
                assert(0 <= dx * dx <= r * r) by (nonlinear_arith)
                    requires
                        -r <= dx <= r,
                ;
                assert(r * r <= 0x7fff * 0x7fff) by (nonlinear_arith)
                    requires
                        0 < r <= 0x7fff,
                ;
                if dx * dx + dy2 <= r2 {
                    let ghost prev = *self;
                    self.set_pixel(cx + dx, cy + dy, c);
                }
                proof {
                    assert forall|px: int, py: int|
                        inside(self.w(), self.h(), px, py) && px - cx == dx && py - cy == dy implies (
                        in_disc(px - cx, py - cy, r as int) <==> dx * dx + dy2 <= r2) by {}
                    assert forall|px: int, py: int|
                        inside(self.w(), self.h(), px, py) && in_disc(px - cx, py - cy, r as int)
                            implies -r <= px - cx <= r && -r <= py - cy <= r by {
                        lemma_disc_bounds(px - cx, py - cy, r as int);
                    }
                }
                dx = dx + 1;
            }
            proof {
                assert forall|px: int, py: int|
                    inside(self.w(), self.h(), px, py) && in_disc(px - cx, py - cy, r as int)
                        implies -r <= px - cx <= r by {
                    lemma_disc_bounds(px - cx, py - cy, r as int);
                }
            }
            dy = dy + 1;
        }
        proof {
            assert forall|px: int, py: int|
                inside(self.w(), self.h(), px, py) && in_disc(px - cx, py - cy, r as int) implies py
                - cy <= r by {
                lemma_disc_bounds(px - cx, py - cy, r as int);
            }
        }
    }
}

/// `(dx, dy)` lies in the disc of radius `r` around the origin.
pub open spec fn in_disc(dx: int, dy: int, r: int) -> bool {
    dx * dx + dy * dy <= r * r
}

/// A point of a disc lies in its bounding square.
proof fn lemma_disc_bounds(dx: int, dy: int, r: int)
    requires
        r > 0,
        in_disc(dx, dy, r),
    ensures
        -r <= dx <= r,
        -r <= dy <= r,
{
    assert(-r <= dx <= r && -r <= dy <= r) by (nonlinear_arith)
        requires
            r > 0,
            dx * dx + dy * dy <= r * r,
    ;
}

/// Pixel `(x, y)` lies on the one-pixel border of `r`.
pub open spec fn on_border(r: Rect, x: int, y: int) -> bool {
    &&& r.w > 0 && r.h > 0
    &&& {
        ||| (r.x <= x <= r.x + r.w - 1 && (y == r.y || y == r.y + r.h - 1))
        ||| (r.y <= y <= r.y + r.h - 1 && (x == r.x || x == r.x + r.w - 1))
    }
}

/// Pixel `(x, y)` lies in `r`: left and top edges included, right and bottom excluded.
pub open spec fn in_rect(r: Rect, x: int, y: int) -> bool {
    r.x <= x < r.x + r.w && r.y <= y < r.y + r.h
}

/// `v` lies between `a` and `b`, both included, in either order.
pub open spec fn between(v: int, a: int, b: int) -> bool {
    (a <= v <= b) || (b <= v <= a)
}

/// `after` differs from `before` exactly on the pixels of the frame that
/// `hit` selects, which are `c` there.
pub open spec fn repainted(
    before: RenderFrame,
    after: RenderFrame,
    hit: spec_fn(int, int) -> bool,
    c: Rgb,
) -> bool {
    &&& after.wf()
    &&& after.w() == before.w()
    &&& after.h() == before.h()
    &&& forall|x: int, y: int|
        inside(before.w(), before.h(), x, y) ==> #[trigger] after.pixel(x, y) == if hit(x, y) {
            c
        } else {
            before.pixel(x, y)
        }
}

} // verus!

verus! {

/// Horizontal run of a line from `a` to `b`.
pub open spec fn run_x(a: Point, b: Point) -> int {
    if b.x >= a.x { b.x - a.x } else { a.x - b.x }
}

/// Vertical run of a line from `a` to `b`.
pub open spec fn run_y(a: Point, b: Point) -> int {
    if b.y >= a.y { b.y - a.y } else { a.y - b.y }
}

/// Direction of the horizontal steps.
pub open spec fn step_x(a: Point, b: Point) -> int {
    if a.x < b.x { 1 } else { -1 }
}

/// Direction of the vertical steps.
pub open spec fn step_y(a: Point, b: Point) -> int {
    if a.y < b.y { 1 } else { -1 }
}

/// The error-driven line walk from `a` toward `b`: position and error after
/// `t` steps. Each step moves horizontally when twice the error is at least
/// minus the vertical run (taking it off the error), and vertically when twice
/// the error is at most the horizontal run (adding it to the error).
pub open spec fn walk(a: Point, b: Point, t: nat) -> (int, int, int)
    decreases t,
{
    if t == 0 {
        (a.x as int, a.y as int, run_x(a, b) - run_y(a, b))
    } else {
        let s = walk(a, b, (t - 1) as nat);
        let e2 = 2 * s.2;
        let (x1, err1) = if e2 >= -run_y(a, b) {
            (s.0 + step_x(a, b), s.2 - run_y(a, b))
        } else {
            (s.0, s.2)
        };
        let (y1, err2) = if e2 <= run_x(a, b) {
            (s.1 + step_y(a, b), err1 + run_x(a, b))
        } else {
            (s.1, err1)
        };
        (x1, y1, err2)
    }
}

/// The walk is at `b` after `t` steps.
pub open spec fn arrived(a: Point, b: Point, t: nat) -> bool {
    walk(a, b, t).0 == b.x && walk(a, b, t).1 == b.y
}

/// Pixel `(x, y)` is one of the first `t` positions of the walk.
pub open spec fn visited_before(a: Point, b: Point, t: nat, x: int, y: int) -> bool {
    exists|s: nat| s < t && #[trigger] walk(a, b, s).0 == x && walk(a, b, s).1 == y
}

/// Pixel `(x, y)` lies on the line from `a` to `b`: the walk passes it no
/// later than it first arrives at `b`.
pub open spec fn on_line(a: Point, b: Point, x: int, y: int) -> bool {
    exists|s: nat|
        #[trigger] walk(a, b, s).0 == x && walk(a, b, s).1 == y && forall|r: nat| r < s ==> !arrived(a, b, r)
}

/// One more step of the walk in terms of what is left: `i` horizontal and
/// `j` vertical steps to go, the error tied to both.
proof fn lemma_walk_step(a: Point, b: Point, t: nat, i: int, j: int)
    requires
        walk(a, b, t).0 == b.x - step_x(a, b) * i,
        walk(a, b, t).1 == b.y - step_y(a, b) * j,
        0 <= i <= run_x(a, b),
        0 <= j <= run_y(a, b),
        walk(a, b, t).2 == run_x(a, b) - run_y(a, b) + i * run_y(a, b) - j * run_x(a, b),
        -2 * run_y(a, b) <= walk(a, b, t).2 <= 2 * run_x(a, b),
        i > 0 || j > 0,
    ensures
        ({
            let e2 = 2 * walk(a, b, t).2;
            let i2 = if e2 >= -run_y(a, b) { i - 1 } else { i };
            let j2 = if e2 <= run_x(a, b) { j - 1 } else { j };
            &&& 0 <= i2 <= i
            &&& 0 <= j2 <= j
            &&& i2 + j2 < i + j
            &&& walk(a, b, t + 1).0 == b.x - step_x(a, b) * i2
            &&& walk(a, b, t + 1).1 == b.y - step_y(a, b) * j2
            &&& walk(a, b, t + 1).2 == run_x(a, b) - run_y(a, b) + i2 * run_y(a, b) - j2 * run_x(a, b)
            &&& -2 * run_y(a, b) <= walk(a, b, t + 1).2 <= 2 * run_x(a, b)
        }),
{
    let aa = run_x(a, b);
    let bb = run_y(a, b);
    let err = walk(a, b, t).2;
    assert(walk(a, b, (t + 1) as nat) == {
        let s = walk(a, b, t);
        let e2 = 2 * s.2;
        let (x1, err1) = if e2 >= -bb { (s.0 + step_x(a, b), s.2 - bb) } else { (s.0, s.2) };
        let (y1, err2) = if e2 <= aa { (s.1 + step_y(a, b), err1 + aa) } else { (s.1, err1) };
        (x1, y1, err2)
    });
    if i == 0 {
        assert(j * aa >= aa) by (nonlinear_arith)
            requires
                j >= 1,
                aa >= 0,
        ;
        assert(bb > 0);
    }
    if j == 0 {
        assert(i * bb >= bb) by (nonlinear_arith)
            requires
                i >= 1,
                bb >= 0,
        ;
        assert(aa > 0);
    }
    assert((i - 1) * bb == i * bb - bb) by (nonlinear_arith);
    assert((j - 1) * aa == j * aa - aa) by (nonlinear_arith);
    assert(step_x(a, b) * (i - 1) == step_x(a, b) * i - step_x(a, b)) by (nonlinear_arith);
    assert(step_y(a, b) * (j - 1) == step_y(a, b) * j - step_y(a, b)) by (nonlinear_arith);
}

impl RenderFrame {
    /// Draws the line from `a` to `b` (see `on_line`), ends included.
    pub fn draw_line(&mut self, a: Point, b: Point, c: Rgb)
        requires
            old(self).wf(),
        ensures
            repainted(*old(self), *final(self), |px: int, py: int| on_line(a, b, px, py), c),
            on_line(a, b, a.x as int, a.y as int),
            on_line(a, b, b.x as int, b.y as int),
    {
        let ghost before = *self;
        let ghost aa = run_x(a, b);
        let ghost bb = run_y(a, b);
        let bx = b.x as i64;
        let by = b.y as i64;
        let dx: i64 = if b.x as i64 >= a.x as i64 { b.x as i64 - a.x as i64 } else { a.x as i64 - b.x as i64 };
        let dy: i64 = if b.y as i64 >= a.y as i64 { b.y as i64 - a.y as i64 } else { a.y as i64 - b.y as i64 };
        let sx: i64 = if a.x < b.x { 1 } else { -1 };
        let sy: i64 = if a.y < b.y { 1 } else { -1 };
        let mut x: i64 = a.x as i64;
        let mut y: i64 = a.y as i64;
        let mut err: i64 = dx - dy;
        let ghost mut t: nat = 0;
        let ghost mut i: int = aa;
        let ghost mut j: int = bb;
        proof {
            assert(a.x == b.x - step_x(a, b) * aa);
            assert(a.y == b.y - step_y(a, b) * bb);
            assert(aa - bb + aa * bb - bb * aa == aa - bb) by (nonlinear_arith);
        }
        self.set_pixel(x as i32, y as i32, c);
        proof {
            assert forall|px: int, py: int| inside(self.w(), self.h(), px, py) implies #[trigger] self.pixel(px, py) == if visited_before(a, b, 1, px, py) {
                c
            } else {
                before.pixel(px, py)
            } by {
                if px == a.x && py == a.y {
                    assert(walk(a, b, 0).0 == px && walk(a, b, 0).1 == py);
                }
            }
        }
        while !(x == bx && y == by)
            invariant
                self.wf(),
                self.w() == before.w(),
                self.h() == before.h(),
                aa == run_x(a, b),
                bb == run_y(a, b),
                dx == aa,
                dy == bb,
                bx == b.x,
                by == b.y,
                sx == step_x(a, b),
                sy == step_y(a, b),
                0 <= aa <= 0x1_0000_0000,
                0 <= bb <= 0x1_0000_0000,
                x == walk(a, b, t).0,
                y == walk(a, b, t).1,
                err == walk(a, b, t).2,
                x == b.x - sx * i,
                y == b.y - sy * j,
                0 <= i <= aa,
                0 <= j <= bb,
                err == aa - bb + i * bb - j * aa,
                -2 * bb <= err <= 2 * aa,
                forall|r: nat| r < t ==> !arrived(a, b, r),
                forall|px: int, py: int|
                    inside(self.w(), self.h(), px, py) ==> #[trigger] self.pixel(px, py) == if visited_before(a, b, (t + 1) as nat, px, py) {
                        c
                    } else {
                        before.pixel(px, py)
                    },
            decreases i + j,
        {
            proof {
                if i == 0 && j == 0 {
                    assert(x == b.x && y == b.y);
                }
                lemma_walk_step(a, b, t, i, j);
            }
            proof {
                if sx == 1 {
                    assert(sx * i == i);
                } else {
                    assert(sx * i == -i);
                }
                if sy == 1 {
                    assert(sy * j == j);
                } else {
                    assert(sy * j == -j);
                }
            }
            let e2 = 2 * err;
            if e2 >= -dy {
                err = err - dy;
                x = x + sx;
                proof {
                    i = i - 1;
                }
            }
            if e2 <= dx {
                err = err + dx;
                y = y + sy;
                proof {
                    j = j - 1;
                }
            }
            proof {
                assert(!arrived(a, b, t));
                t = t + 1;
                assert(sx * i == 0 || sx * i == i || sx * i == -i);
                assert(sy * j == 0 || sy * j == j || sy * j == -j);
            }
            let ghost painted_before = *self;
            self.set_pixel(x as i32, y as i32, c);
            proof {
                assert forall|px: int, py: int| inside(self.w(), self.h(), px, py) implies #[trigger] self.pixel(px, py) == if visited_before(a, b, (t + 1) as nat, px, py) {
                    c
                } else {
                    before.pixel(px, py)
                } by {
                    if px == x && py == y {
                        assert(walk(a, b, t).0 == px && walk(a, b, t).1 == py);
                    } else if visited_before(a, b, (t + 1) as nat, px, py) {
                        let s = choose|s: nat| s < t + 1 && #[trigger] walk(a, b, s).0 == px && walk(a, b, s).1 == py;
                        assert(s < t);
                        assert(visited_before(a, b, t, px, py));
                    }
                }
            }
        }
        proof {
            assert(arrived(a, b, t));
            assert forall|px: int, py: int| inside(self.w(), self.h(), px, py) implies (visited_before(a, b, (t + 1) as nat, px, py) <==> on_line(a, b, px, py)) by {
                if visited_before(a, b, (t + 1) as nat, px, py) {
                    let s = choose|s: nat| s < t + 1 && #[trigger] walk(a, b, s).0 == px && walk(a, b, s).1 == py;
                    assert(forall|r: nat| r < s ==> !arrived(a, b, r));
                }
                if on_line(a, b, px, py) {
                    let s = choose|s: nat|
                        #[trigger] walk(a, b, s).0 == px && walk(a, b, s).1 == py && forall|r: nat| r < s ==> !arrived(a, b, r);
                    if s > t {
                        assert(!arrived(a, b, t));
                    }
                    assert(s < t + 1);
                }
            }
            assert(walk(a, b, 0).0 == a.x && walk(a, b, 0).1 == a.y);
            assert(forall|r: nat| r < 0 ==> !arrived(a, b, r));
            assert(walk(a, b, t).0 == b.x && walk(a, b, t).1 == b.y);
        }
    }
}

} // verus!
